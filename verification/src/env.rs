//! The environment: a chain of scopes in which names are bound, looked
//! up nearest-first, and removed.
use crate::ast::{views, Expr, ExprView};
use crate::builtin::{define_std, with_std};
use crate::cache::{cache_entries, cache_get, cache_new, cache_pop, cache_put};
use lru::LruCache;
use vstd::prelude::*;

verus! {

pub type SymbolName = String;

/// The mapping that binding `names` to `vals`, position for position and in
/// order, leaves behind: a later binding of a name replaces an earlier one.
pub open spec fn bind(names: Seq<Seq<char>>, vals: Seq<ExprView>) -> Map<Seq<char>, ExprView>
    decreases names.len(),
{
    if names.len() == 0 || vals.len() != names.len() {
        Map::empty()
    } else {
        bind(names.drop_last(), vals.drop_last()).insert(names.last(), vals.last())
    }
}

/// The views of a sequence of names.
pub open spec fn name_views(names: Seq<String>) -> Seq<Seq<char>> {
    Seq::new(names.len(), |i: int| names[i]@)
}

/// No name occurs twice.
pub open spec fn distinct(names: Seq<Seq<char>>) -> bool {
    forall|i: int, j: int| 0 <= i < j < names.len() ==> names[i] != names[j]
}

/// What `bind` holds when no name occurs twice: exactly the given names, each
/// with the value at its position.
pub proof fn lemma_bind_distinct(names: Seq<Seq<char>>, vals: Seq<ExprView>)
    requires
        names.len() == vals.len(),
        distinct(names),
    ensures
        forall|i: int|
            0 <= i < names.len() ==> bind(names, vals).dom().contains(#[trigger] names[i])
                && bind(names, vals)[names[i]] == vals[i],
        forall|k: Seq<char>| #[trigger]
            bind(names, vals).dom().contains(k) ==> exists|i: int|
                0 <= i < names.len() && names[i] == k,
    decreases names.len(),
{
    if names.len() > 0 {
        let n0 = names.drop_last();
        let v0 = vals.drop_last();
        lemma_bind_distinct(n0, v0);
        let m = bind(names, vals);
        assert forall|i: int| 0 <= i < names.len() implies m.dom().contains(#[trigger] names[i])
            && m[names[i]] == vals[i] by {
            if i < names.len() - 1 {
                assert(names[i] == n0[i]);
                assert(vals[i] == v0[i]);
                assert(names[i] != names[names.len() - 1]);
            }
        }
        assert forall|k: Seq<char>| #[trigger] m.dom().contains(k) implies exists|i: int|
            0 <= i < names.len() && names[i] == k by {
            if k == names.last() {
                assert(names[names.len() - 1] == k);
            } else {
                assert(bind(n0, v0).dom().contains(k));
                let i = choose|i: int| 0 <= i < n0.len() && n0[i] == k;
                assert(names[i] == k);
            }
        }
    }
}

/// One scope: names bound to values, no name twice.
pub struct Frame {
    names: Vec<String>,
    values: Vec<Expr>,
}

impl View for Frame {
    type V = Map<Seq<char>, ExprView>;

    closed spec fn view(&self) -> Map<Seq<char>, ExprView> {
        bind(name_views(self.names@), views(self.values@))
    }
}

impl Frame {
    /// The frame's invariant: as many values as names, and no name twice.
    pub closed spec fn wf(&self) -> bool {
        &&& self.names.len() == self.values.len()
        &&& distinct(name_views(self.names@))
    }

    /// A frame that binds nothing.
    pub fn new() -> (r: Frame)
        ensures
            r.wf(),
            r@ == Map::<Seq<char>, ExprView>::empty(),
    {
        Frame { names: Vec::new(), values: Vec::new() }
    }

    /// The position at which `name` is bound, if it is.
    fn position(&self, name: &String) -> (r: Option<usize>)
        requires
            self.wf(),
        ensures
            match r {
                Some(i) => i < self.names.len() && self.names[i as int]@ == name@
                    && self@.dom().contains(name@) && self@[name@] == self.values[i as int]@,
                None => !self@.dom().contains(name@) && forall|i: int|
                    0 <= i < self.names.len() ==> self.names[i]@ != name@,
            },
    {
        proof {
            lemma_bind_distinct(name_views(self.names@), views(self.values@));
        }
        let mut i: usize = 0;
        while i < self.names.len()
            invariant
                i <= self.names.len(),
                self.wf(),
                forall|j: int| 0 <= j < i ==> self.names[j]@ != name@,
            decreases self.names.len() - i,
        {
            if self.names[i] == *name {
                proof {
                    lemma_bind_distinct(name_views(self.names@), views(self.values@));
                    assert(name_views(self.names@)[i as int] == name@);
                    assert(views(self.values@)[i as int] == self.values[i as int]@);
                }
                return Some(i);
            }
            i += 1;
        }
        assert(!self@.dom().contains(name@)) by {
            if self@.dom().contains(name@) {
                let k = choose|k: int|
                    0 <= k < self.names.len() && name_views(self.names@)[k] == name@;
                assert(self.names[k]@ == name@);
            }
        }
        None
    }

    /// Whether `name` is bound in this frame.
    pub fn contains(&self, name: &String) -> (b: bool)
        requires
            self.wf(),
        ensures
            b == self@.dom().contains(name@),
    {
        self.position(name).is_some()
    }

    /// The value that `name` is bound to in this frame.
    pub fn get(&self, name: &String) -> (r: Option<&Expr>)
        requires
            self.wf(),
        ensures
            match r {
                Some(e) => self@.dom().contains(name@) && e@ == self@[name@],
                None => !self@.dom().contains(name@),
            },
    {
        match self.position(name) {
            Some(i) => Some(&self.values[i]),
            None => None,
        }
    }

    /// Binds `name` to `value`, in place of an earlier binding of it.
    pub fn insert(&mut self, name: String, value: Expr)
        requires
            old(self).wf(),
        ensures
            final(self).wf(),
            final(self)@ == old(self)@.insert(name@, value@),
    {
        let ghost names0 = name_views(self.names@);
        let ghost vals0 = views(self.values@);
        match self.position(&name) {
            Some(i) => {
                self.values.set(i, value);
                proof {
                    let vals1 = views(self.values@);
                    assert(vals1 =~= vals0.update(i as int, value@));
                    lemma_bind_distinct(names0, vals0);
                    lemma_bind_distinct(names0, vals1);
                    assert(bind(names0, vals1) =~= bind(names0, vals0).insert(name@, value@)) by {
                        assert forall|k: Seq<char>|
                            bind(names0, vals0).insert(name@, value@).dom().contains(
                                k,
                            ) implies #[trigger] bind(names0, vals1)[k] == bind(
                            names0,
                            vals0,
                        ).insert(name@, value@)[k] by {
                            if k != name@ {
                                let j = choose|j: int| 0 <= j < names0.len() && names0[j] == k;
                                assert(bind(names0, vals1)[names0[j]] == vals1[j]);
                                assert(bind(names0, vals0)[names0[j]] == vals0[j]);
                            } else {
                                assert(names0[i as int] == name@);
                            }
                        }
                        assert(names0[i as int] == name@);
                    }
                }
            },
            None => {
                self.names.push(name);
                self.values.push(value);
                proof {
                    let names1 = name_views(self.names@);
                    let vals1 = views(self.values@);
                    assert(names1.drop_last() =~= names0);
                    assert(vals1.drop_last() =~= vals0);
                    assert(names1.last() == name@);
                    assert(vals1.last() == value@);
                    assert forall|a: int, b: int| 0 <= a < b < names1.len() implies names1[a]
                        != names1[b] by {
                        if b < names0.len() {
                            assert(names1[a] == names0[a] && names1[b] == names0[b]);
                        } else {
                            assert(names1[a] == old(self).names[a]@);
                        }
                    }
                }
            },
        }
    }

    /// Removes the binding of `name`, if there is one.
    pub fn remove(&mut self, name: &String)
        requires
            old(self).wf(),
        ensures
            final(self).wf(),
            final(self)@ == old(self)@.remove(name@),
    {
        let ghost names0 = name_views(self.names@);
        let ghost vals0 = views(self.values@);
        match self.position(name) {
            Some(i) => {
                self.names.remove(i);
                self.values.remove(i);
                proof {
                    let names1 = name_views(self.names@);
                    let vals1 = views(self.values@);
                    assert(names1 =~= names0.remove(i as int));
                    assert(vals1 =~= vals0.remove(i as int));
                    assert forall|a: int, b: int| 0 <= a < b < names1.len() implies names1[a]
                        != names1[b] by {
                        let a0 = if a < i { a } else { a + 1 };
                        let b0 = if b < i { b } else { b + 1 };
                        assert(names1[a] == names0[a0] && names1[b] == names0[b0]);
                    }
                    lemma_bind_distinct(names0, vals0);
                    lemma_bind_distinct(names1, vals1);
                    let m0 = bind(names0, vals0);
                    let m1 = bind(names1, vals1);
                    assert forall|k: Seq<char>| m1.dom().contains(k) <==> m0.remove(
                        name@,
                    ).dom().contains(k) by {
                        if m1.dom().contains(k) {
                            let j = choose|j: int| 0 <= j < names1.len() && names1[j] == k;
                            let j0 = if j < i { j } else { j + 1 };
                            assert(names0[j0] == k);
                            assert(m0.dom().contains(names0[j0]));
                            assert(j0 != i);
                            assert(names0[i as int] == name@);
                        }
                        if m0.remove(name@).dom().contains(k) {
                            let j0 = choose|j: int| 0 <= j < names0.len() && names0[j] == k;
                            assert(names0[i as int] == name@);
                            assert(j0 != i);
                            let j = if j0 < i { j0 } else { j0 - 1 };
                            assert(names1[j] == k);
                            assert(m1.dom().contains(names1[j]));
                        }
                    }
                    assert forall|k: Seq<char>| m1.dom().contains(k) implies #[trigger] m1[k]
                        == m0.remove(name@)[k] by {
                        let j = choose|j: int| 0 <= j < names1.len() && names1[j] == k;
                        let j0 = if j < i { j } else { j + 1 };
                        assert(names0[j0] == k);
                        assert(m1[names1[j]] == vals1[j]);
                        assert(m0[names0[j0]] == vals0[j0]);
                    }
                    assert(m1 =~= m0.remove(name@));
                }
            },
            None => {
                assert(self@ =~= old(self)@.remove(name@));
            },
        }
    }
}

/// The mathematical value of an environment: its scopes from the root
/// (first) to the current one (last), and the text written so far.
pub struct EnvView {
    pub frames: Seq<Map<Seq<char>, ExprView>>,
    pub output: Seq<char>,
}

/// The binding of `name` in the nearest of `frames` that has one, counting
/// from the last.
pub open spec fn lookup_in(frames: Seq<Map<Seq<char>, ExprView>>, name: Seq<char>) -> Option<
    ExprView,
>
    decreases frames.len(),
{
    if frames.len() == 0 {
        None
    } else if frames.last().dom().contains(name) {
        Some(frames.last()[name])
    } else {
        lookup_in(frames.drop_last(), name)
    }
}

/// `frames` without the binding of `name` in the nearest frame that has one.
pub open spec fn undefine_in(frames: Seq<Map<Seq<char>, ExprView>>, name: Seq<char>) -> Seq<
    Map<Seq<char>, ExprView>,
>
    decreases frames.len(),
{
    if frames.len() == 0 {
        frames
    } else if frames.last().dom().contains(name) {
        frames.drop_last().push(frames.last().remove(name))
    } else {
        undefine_in(frames.drop_last(), name).push(frames.last())
    }
}

impl EnvView {
    /// The value that `name` resolves to: that of the nearest scope binding it.
    pub open spec fn lookup(self, name: Seq<char>) -> Option<ExprView> {
        lookup_in(self.frames, name)
    }

    /// The environment after binding `name` to `value` in the current scope.
    pub open spec fn define(self, name: Seq<char>, value: ExprView) -> EnvView {
        if self.frames.len() == 0 {
            self
        } else {
            EnvView {
                frames: self.frames.drop_last().push(self.frames.last().insert(name, value)),
                output: self.output,
            }
        }
    }

    /// The environment after removing the nearest binding of `name`.
    pub open spec fn undefine(self, name: Seq<char>) -> EnvView {
        EnvView { frames: undefine_in(self.frames, name), output: self.output }
    }

    /// The environment with `frame` as its new current scope.
    pub open spec fn push(self, frame: Map<Seq<char>, ExprView>) -> EnvView {
        EnvView { frames: self.frames.push(frame), output: self.output }
    }

    /// The environment without its current scope.
    pub open spec fn pop(self) -> EnvView {
        EnvView { frames: self.frames.drop_last(), output: self.output }
    }

    /// The environment after writing `text`.
    pub open spec fn emit(self, text: Seq<char>) -> EnvView {
        EnvView { frames: self.frames, output: self.output + text }
    }
}


/// How many bindings the cache of recent bindings holds at most.
pub const CACHE_NUM: usize = 20;

/// A chain of scopes, from the root scope to the current one, together with
/// the text that evaluation has written and that the host has not yet taken.
/// A bounded cache of recent bindings stands before the chain; it never
/// changes what a name resolves to.
pub struct Env {
    frames: Vec<Frame>,
    output: String,
    cache: LruCache<String, Expr>,
}

impl View for Env {
    type V = EnvView;

    closed spec fn view(&self) -> EnvView {
        EnvView {
            frames: Seq::new(self.frames@.len(), |i: int| self.frames@[i]@),
            output: self.output@,
        }
    }
}

/// The scopes and the output that a new environment starts from: those of
/// its parent, or none.
pub open spec fn scopes_of(parent: Option<Env>) -> EnvView {
    match parent {
        Some(p) => p@,
        None => EnvView { frames: Seq::empty(), output: Seq::empty() },
    }
}

/// Every entry of the cache is what its name resolves to in the chain.
pub open spec fn coherent(
    entries: Map<Seq<char>, ExprView>,
    frames: Seq<Map<Seq<char>, ExprView>>,
) -> bool {
    forall|k: Seq<char>| #[trigger]
        entries.dom().contains(k) ==> lookup_in(frames, k) == Some(entries[k])
}

/// Binding a name in the current scope leaves what any other name resolves to.
pub proof fn lemma_define_other(env: EnvView, name: Seq<char>, value: ExprView, other: Seq<char>)
    requires
        env.frames.len() >= 1,
    ensures
        other != name ==> env.define(name, value).lookup(other) == env.lookup(other),
        env.define(name, value).lookup(name) == Some(value),
{
    let after = env.define(name, value);
    assert(after.frames.drop_last() =~= env.frames.drop_last());
}

/// Removing the nearest binding of a name leaves what any other name resolves to.
pub proof fn lemma_undefine_other(
    frames: Seq<Map<Seq<char>, ExprView>>,
    name: Seq<char>,
    other: Seq<char>,
)
    requires
        other != name,
    ensures
        lookup_in(undefine_in(frames, name), other) == lookup_in(frames, other),
    decreases frames.len(),
{
    if frames.len() > 0 {
        if frames.last().dom().contains(name) {
            let after = frames.drop_last().push(frames.last().remove(name));
            assert(after.drop_last() =~= frames.drop_last());
        } else {
            lemma_undefine_other(frames.drop_last(), name, other);
            let after = undefine_in(frames.drop_last(), name).push(frames.last());
            assert(after.drop_last() =~= undefine_in(frames.drop_last(), name));
        }
    }
}

impl Env {
    /// The environment's invariant: there is a root scope, every scope is
    /// well formed, and the cache agrees with the chain.
    pub closed spec fn wf(&self) -> bool {
        &&& self.frames@.len() >= 1
        &&& forall|i: int| 0 <= i < self.frames@.len() ==> (#[trigger] self.frames@[i]).wf()
        &&& coherent(cache_entries(self.cache), self@.frames)
    }

    /// A well-formed environment has a root scope.
    pub broadcast proof fn lemma_wf_has_root(&self)
        requires
            #[trigger] self.wf(),
        ensures
            self@.frames.len() >= 1,
    {
    }

    /// An environment whose current scope binds `local`, in order, on top of
    /// the scopes of `parent`; without a parent that scope is the root.
    pub fn new(local: Vec<(String, Expr)>, parent: Option<Env>) -> (r: Env)
        requires
            match parent {
                Some(p) => p.wf(),
                None => true,
            },
        ensures
            r.wf(),
            r@ == scopes_of(parent).push(bind(pair_names(local@), pair_values(local@))),
    {
        let ghost expected = scopes_of(parent);
        let mut env = match parent {
            Some(p) => {
                let mut p = p;
                p.extend();
                p
            },
            None => {
                let mut frames: Vec<Frame> = Vec::new();
                frames.push(Frame::new());
                let fresh = Env { frames, output: String::new(), cache: cache_new(CACHE_NUM) };
                assert(fresh@.frames =~= Seq::<Map<Seq<char>, ExprView>>::empty().push(
                    Map::empty(),
                ));
                fresh
            },
        };
        let ghost base = env@.pop();
        proof {
            assert(base.frames =~= expected.frames);
        }
        let ghost names = pair_names(local@);
        let ghost vals = pair_values(local@);
        proof {
            assert(base.frames =~= env@.frames.drop_last());
            assert(names.take(0) =~= Seq::empty());
            assert(env@.frames =~= base.frames.push(bind(names.take(0), vals.take(0))));
        }
        let mut i: usize = 0;
        while i < local.len()
            invariant
                i <= local.len(),
                names == pair_names(local@),
                vals == pair_values(local@),
                env.wf(),
                env@ == base.push(bind(names.take(i as int), vals.take(i as int))),
            decreases local.len() - i,
        {
            proof {
                assert(names.take(i + 1).drop_last() =~= names.take(i as int));
                assert(vals.take(i + 1).drop_last() =~= vals.take(i as int));
                assert(names.take(i + 1).last() == local[i as int].0@);
                assert(vals.take(i + 1).last() == local[i as int].1@);
            }
            let ghost prev = env@;
            env.define(local[i].0.clone(), local[i].1.clone());
            proof {
                assert(prev.frames.drop_last() =~= base.frames);
                assert(env@.frames =~= base.frames.push(bind(names.take(i + 1), vals.take(i + 1))));
            }
            i += 1;
        }
        proof {
            assert(names.take(i as int) =~= names);
            assert(vals.take(i as int) =~= vals);
        }
        env
    }
}

/// Where the nearest scope binding `name` is scope `i`, lookup yields that
/// scope's value and removal changes that scope alone.
pub proof fn lemma_nearest(frames: Seq<Map<Seq<char>, ExprView>>, name: Seq<char>, i: int)
    requires
        0 <= i < frames.len(),
        frames[i].dom().contains(name),
        forall|j: int| i < j < frames.len() ==> !frames[j].dom().contains(name),
    ensures
        lookup_in(frames, name) == Some(frames[i][name]),
        undefine_in(frames, name) == frames.update(i, frames[i].remove(name)),
    decreases frames.len(),
{
    if i == frames.len() - 1 {
        assert(frames.drop_last().push(frames.last().remove(name)) =~= frames.update(
            i,
            frames[i].remove(name),
        ));
    } else {
        let rest = frames.drop_last();
        assert(rest[i] == frames[i]);
        assert forall|j: int| i < j < rest.len() implies !rest[j].dom().contains(name) by {
            assert(rest[j] == frames[j]);
        }
        lemma_nearest(rest, name, i);
        assert(rest.update(i, rest[i].remove(name)).push(frames.last()) =~= frames.update(
            i,
            frames[i].remove(name),
        ));
    }
}

/// Where no scope binds `name`, lookup finds nothing and removal changes nothing.
pub proof fn lemma_unbound(frames: Seq<Map<Seq<char>, ExprView>>, name: Seq<char>)
    requires
        forall|j: int| 0 <= j < frames.len() ==> !frames[j].dom().contains(name),
    ensures
        lookup_in(frames, name) == None::<ExprView>,
        undefine_in(frames, name) == frames,
    decreases frames.len(),
{
    if frames.len() > 0 {
        let rest = frames.drop_last();
        assert forall|j: int| 0 <= j < rest.len() implies !rest[j].dom().contains(name) by {
            assert(rest[j] == frames[j]);
        }
        lemma_unbound(rest, name);
        assert(rest.push(frames.last()) =~= frames);
    }
}

impl Env {
    /// The index of the nearest scope that binds `name`.
    fn nearest(&self, name: &String) -> (r: Option<usize>)
        requires
            self.frames@.len() >= 1,
            forall|i: int| 0 <= i < self.frames@.len() ==> (#[trigger] self.frames@[i]).wf(),
        ensures
            match r {
                Some(i) => i < self.frames@.len() && self@.frames[i as int].dom().contains(name@)
                    && self@.lookup(name@) == Some(self@.frames[i as int][name@])
                    && self@.undefine(name@).frames == self@.frames.update(
                    i as int,
                    self@.frames[i as int].remove(name@),
                ),
                None => self@.lookup(name@) == None::<ExprView> && self@.undefine(name@)
                    == self@,
            },
    {
        let mut i: usize = self.frames.len();
        while i > 0
            invariant
                i <= self.frames@.len(),
                forall|i: int| 0 <= i < self.frames@.len() ==> (#[trigger] self.frames@[i]).wf(),
                forall|j: int|
                    i <= j < self.frames@.len() ==> !self@.frames[j].dom().contains(name@),
            decreases i,
        {
            i -= 1;
            if self.frames[i].contains(name) {
                proof {
                    lemma_nearest(self@.frames, name@, i as int);
                }
                return Some(i);
            }
        }
        proof {
            lemma_unbound(self@.frames, name@);
        }
        None
    }

    /// Binds `symbol` to `value` in the current scope, in place of an earlier
    /// binding there. No other scope changes.
    pub fn define(&mut self, symbol: SymbolName, value: Expr)
        requires
            old(self).wf(),
        ensures
            final(self).wf(),
            final(self)@ == old(self)@.define(symbol@, value@),
    {
        let ghost before = self@;
        let mut top = self.frames.pop().unwrap();
        assert(top@ == before.frames.last());
        top.insert(symbol.clone(), value.clone());
        self.frames.push(top);
        assert(self@.frames =~= before.define(symbol@, value@).frames);
        cache_put(&mut self.cache, symbol, value);
        proof {
            assert forall|k: Seq<char>| #[trigger]
                cache_entries(self.cache).dom().contains(k) implies lookup_in(self@.frames, k)
                == Some(cache_entries(self.cache)[k]) by {
                lemma_define_other(before, symbol@, value@, k);
                if k != symbol@ {
                    assert(cache_entries(old(self).cache).dom().contains(k));
                }
            }
        }
    }

    /// Removes the binding of `symbol` from the nearest scope that has one.
    /// Where no scope has one, nothing changes.
    pub fn undefine(&mut self, symbol: &SymbolName)
        requires
            old(self).wf(),
        ensures
            final(self).wf(),
            final(self)@ == old(self)@.undefine(symbol@),
    {
        let ghost before = self@;
        match self.nearest(symbol) {
            Some(i) => {
                let mut frame = self.frames.remove(i);
                assert(frame@ == before.frames[i as int]);
                frame.remove(symbol);
                self.frames.insert(i, frame);
                assert(self@.frames =~= before.undefine(symbol@).frames);
            },
            None => {},
        }
        cache_pop(&mut self.cache, symbol);
        proof {
            assert forall|k: Seq<char>| #[trigger]
                cache_entries(self.cache).dom().contains(k) implies lookup_in(self@.frames, k)
                == Some(cache_entries(self.cache)[k]) by {
                lemma_undefine_other(before.frames, symbol@, k);
                assert(cache_entries(old(self).cache).dom().contains(k));
            }
        }
    }

    /// The value that `symbol` resolves to: that of the nearest scope binding
    /// it, or nothing where no scope does.
    pub fn get(&mut self, symbol: &SymbolName) -> (r: Option<Expr>)
        requires
            old(self).wf(),
        ensures
            final(self).wf(),
            final(self)@ == old(self)@,
            match r {
                Some(e) => old(self)@.lookup(symbol@) == Some(e@),
                None => old(self)@.lookup(symbol@) == None::<ExprView>,
            },
    {
        if let Some(e) = cache_get(&mut self.cache, symbol) {
            assert(cache_entries(old(self).cache).dom().contains(symbol@));
            return Some(e);
        }
        match self.nearest(symbol) {
            Some(i) => {
                match self.frames[i].get(symbol) {
                    Some(e) => Some(e.clone()),
                    None => None,
                }
            },
            None => None,
        }
    }

    /// Opens a new, empty current scope on top of the present one.
    pub fn extend(&mut self)
        requires
            old(self).wf(),
        ensures
            final(self).wf(),
            final(self)@ == old(self)@.push(Map::empty()),
    {
        let ghost before = self@;
        self.frames.push(Frame::new());
        assert(self@.frames =~= before.frames.push(Map::empty()));
        proof {
            assert(self@.frames.drop_last() =~= before.frames);
            assert forall|k: Seq<char>| #[trigger]
                cache_entries(self.cache).dom().contains(k) implies lookup_in(self@.frames, k)
                == Some(cache_entries(self.cache)[k]) by {
                assert(!self@.frames.last().dom().contains(k));
            }
        }
    }

    /// Discards the current scope. The root scope is never discarded.
    pub fn leave(&mut self)
        requires
            old(self).wf(),
        ensures
            final(self).wf(),
            final(self)@ == if old(self)@.frames.len() > 1 {
                old(self)@.pop()
            } else {
                old(self)@
            },
    {
        let ghost before = self@;
        if self.frames.len() > 1 {
            let top = self.frames.pop().unwrap();
            assert(self@.frames =~= before.frames.drop_last());
            assert(top@ == before.frames.last());
            let ghost entries0 = cache_entries(self.cache);
            let mut i: usize = 0;
            while i < top.names.len()
                invariant
                    i <= top.names.len(),
                    forall|k: Seq<char>| #[trigger]
                        cache_entries(self.cache).dom().contains(k) ==> entries0.dom().contains(k)
                            && cache_entries(self.cache)[k] == entries0[k],
                    forall|j: int|
                        0 <= j < i ==> !cache_entries(self.cache).dom().contains(
                            #[trigger] top.names[j]@,
                        ),
                    self.frames@ == old(self).frames@.drop_last(),
                    self@ == before.pop(),
                    top@ == before.frames.last(),
                    before == old(self)@,
                    old(self).wf(),
                    coherent(entries0, before.frames),
                    forall|j: int|
                        0 <= j < self.frames@.len() ==> (#[trigger] self.frames@[j]).wf(),
                decreases top.names.len() - i,
            {
                cache_pop(&mut self.cache, &top.names[i]);
                i += 1;
            }
            proof {
                lemma_bind_distinct(name_views(top.names@), views(top.values@));
                assert forall|k: Seq<char>| #[trigger]
                    cache_entries(self.cache).dom().contains(k) implies lookup_in(self@.frames, k)
                    == Some(cache_entries(self.cache)[k]) by {
                    if top@.dom().contains(k) {
                        let j = choose|j: int|
                            0 <= j < top.names@.len() && name_views(top.names@)[j] == k;
                        assert(top.names[j]@ == k);
                    }
                    assert(lookup_in(before.frames, k) == Some(entries0[k]));
                }
            }
        }
    }

    /// The number of scopes, the root included.
    pub fn depth(&self) -> (n: usize)
        requires
            self.wf(),
        ensures
            n == self@.frames.len(),
            n >= 1,
    {
        self.frames.len()
    }

    /// Appends `text` to what has been written.
    pub fn emit(&mut self, text: &str)
        requires
            old(self).wf(),
        ensures
            final(self).wf(),
            final(self)@ == old(self)@.emit(text@),
    {
        self.output.append(text);
    }

    /// Hands over what has been written since the last call, and forgets it.
    pub fn take_output(&mut self) -> (text: String)
        requires
            old(self).wf(),
        ensures
            final(self).wf(),
            text@ == old(self)@.output,
            final(self)@ == (EnvView { frames: old(self)@.frames, output: Seq::empty() }),
    {
        let mut text = String::new();
        std::mem::swap(&mut text, &mut self.output);
        text
    }
}

impl Default for Env {
    /// The root environment: one scope, which binds the native functions,
    /// and nothing written.
    fn default() -> (r: Env)
        ensures
            r.wf(),
            r@ == with_std(EnvView { frames: seq![Map::empty()], output: Seq::empty() }),
    {
        let mut env = Env::new(Vec::new(), None);
        proof {
            assert(pair_names(Seq::<(String, Expr)>::empty()) =~= Seq::empty());
            assert(env@.frames =~= seq![Map::empty()]);
        }
        define_std(&mut env);
        env
    }
}

/// Shadowing: a name defined in the current scope resolves to the new
/// value there, whatever an enclosing scope binds it to; the enclosing
/// scopes stay as they were; and once the current scope is discarded the
/// name resolves as it did in the enclosing scopes before.
pub proof fn lemma_shadowing(env: EnvView, name: Seq<char>, value: ExprView)
    requires
        env.frames.len() >= 2,
    ensures
        env.define(name, value).lookup(name) == Some(value),
        env.define(name, value).frames.drop_last() == env.frames.drop_last(),
        env.define(name, value).pop() == env.pop(),
        env.define(name, value).pop().lookup(name) == lookup_in(env.frames.drop_last(), name),
{
    let defined = env.define(name, value);
    assert(defined.frames.drop_last() =~= env.frames.drop_last());
}

/// Definition touches the current scope only: every enclosing scope is the
/// same before and after.
pub proof fn lemma_define_is_local(env: EnvView, name: Seq<char>, value: ExprView, i: int)
    requires
        0 <= i < env.frames.len() - 1,
    ensures
        env.define(name, value).frames.len() == env.frames.len(),
        env.define(name, value).frames[i] == env.frames[i],
        env.define(name, value).lookup(name) == Some(value),
{
}

/// The names of a sequence of pairs of a name and a value.
pub open spec fn pair_names(pairs: Seq<(String, Expr)>) -> Seq<Seq<char>> {
    Seq::new(pairs.len(), |i: int| pairs[i].0@)
}

/// The values of a sequence of pairs of a name and a value.
pub open spec fn pair_values(pairs: Seq<(String, Expr)>) -> Seq<ExprView> {
    Seq::new(pairs.len(), |i: int| pairs[i].1@)
}

} // verus!
