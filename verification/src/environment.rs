use vstd::prelude::*;

use crate::text::copy_string;
use crate::value::{Value, ValueView};

verus! {

/// One named slot: its value and whether it was declared constant.
#[derive(Debug)]
pub struct Binding {
    pub name: String,
    pub value: Value,
    pub constant: bool,
}

/// The model of a binding: name, value model, constness.
pub type BindingView = (Seq<char>, ValueView, bool);

/// The variables in scope, in the order they were first bound.
#[derive(Debug)]
pub struct Environment {
    pub bindings: Vec<Binding>,
}

pub open spec fn binding_views(s: Seq<Binding>) -> Seq<BindingView> {
    s.map_values(|b: Binding| (b.name@, b.value@, b.constant))
}

impl View for Environment {
    type V = Seq<BindingView>;

    open spec fn view(&self) -> Seq<BindingView> {
        binding_views(self.bindings@)
    }
}

/// Whether `i` is the first slot of `env` named `name`.
pub open spec fn is_first(env: Seq<BindingView>, name: Seq<char>, i: int) -> bool {
    &&& 0 <= i < env.len()
    &&& env[i].0 == name
    &&& forall|j: int| 0 <= j < i ==> (#[trigger] env[j]).0 != name
}

/// The slot that holds `name`, if it is bound.
pub open spec fn position(env: Seq<BindingView>, name: Seq<char>) -> Option<int> {
    if exists|i: int| is_first(env, name, i) {
        Some(choose|i: int| is_first(env, name, i))
    } else {
        None
    }
}

/// The value and constness bound to `name`, if any.
pub open spec fn lookup(env: Seq<BindingView>, name: Seq<char>) -> Option<(ValueView, bool)> {
    match position(env, name) {
        Some(i) => Some((env[i].1, env[i].2)),
        None => None,
    }
}

/// `env` with `name` bound to `value`: its slot is overwritten where it exists,
/// a new slot is added at the end where it does not.
pub open spec fn bind(env: Seq<BindingView>, name: Seq<char>, value: ValueView, constant: bool) -> Seq<
    BindingView,
> {
    match position(env, name) {
        Some(i) => env.update(i, (name, value, constant)),
        None => env.push((name, value, constant)),
    }
}

/// The names bound in `env`, in slot order.
pub open spec fn names_of(env: Seq<BindingView>) -> Seq<Seq<char>> {
    env.map_values(|b: BindingView| b.0)
}

pub proof fn lemma_first_unique(env: Seq<BindingView>, name: Seq<char>, i: int, j: int)
    requires
        is_first(env, name, i),
        is_first(env, name, j),
    ensures
        i == j,
{
    if i < j {
        assert(env[i].0 == name);
    } else if j < i {
        assert(env[j].0 == name);
    }
}

pub proof fn lemma_position_is(env: Seq<BindingView>, name: Seq<char>, i: int)
    requires
        is_first(env, name, i),
    ensures
        position(env, name) == Some(i),
{
    let k = choose|k: int| is_first(env, name, k);
    lemma_first_unique(env, name, i, k);
}

pub proof fn lemma_position_none(env: Seq<BindingView>, name: Seq<char>)
    requires
        forall|j: int| 0 <= j < env.len() ==> (#[trigger] env[j]).0 != name,
    ensures
        position(env, name) is None,
{
    assert forall|i: int| !is_first(env, name, i) by {
        if 0 <= i < env.len() {
            assert(env[i].0 != name);
        }
    }
}

/// Where some slot carries `name`, a first such slot exists.
pub proof fn lemma_first_exists(env: Seq<BindingView>, name: Seq<char>, j: int)
    requires
        0 <= j < env.len(),
        env[j].0 == name,
    ensures
        position(env, name) is Some,
    decreases j,
{
    if exists|q: int| 0 <= q < j && env[q].0 == name {
        let q = choose|q: int| 0 <= q < j && env[q].0 == name;
        lemma_first_exists(env, name, q);
    } else {
        assert(is_first(env, name, j));
    }
}

/// Whether no name has two slots in `env`.
pub open spec fn distinct_names(env: Seq<BindingView>) -> bool {
    forall|i: int, j: int| 0 <= i < j < env.len() ==> (#[trigger] env[i]).0 != (#[trigger] env[j]).0
}

/// Binding a name keeps names distinct: it overwrites the name's slot or adds
/// one for a name that had none.
pub proof fn lemma_bind_distinct(env: Seq<BindingView>, name: Seq<char>, value: ValueView, constant: bool)
    requires
        distinct_names(env),
    ensures
        distinct_names(bind(env, name, value, constant)),
{
    let env2 = bind(env, name, value, constant);
    match position(env, name) {
        Some(p) => {
            let k = choose|k: int| is_first(env, name, k);
            assert(is_first(env, name, k));
            assert forall|i: int, j: int| 0 <= i < j < env2.len() implies (#[trigger] env2[i]).0
                != (#[trigger] env2[j]).0 by {
                assert(env2[i].0 == env[i].0);
                assert(env2[j].0 == env[j].0);
            }
        },
        None => {
            assert forall|i: int, j: int| 0 <= i < j < env2.len() implies (#[trigger] env2[i]).0
                != (#[trigger] env2[j]).0 by {
                if j == env.len() {
                    if env[i].0 == name {
                        lemma_first_exists(env, name, i);
                    }
                } else {
                    assert(env2[i] == env[i] && env2[j] == env[j]);
                }
            }
        },
    }
}

impl Environment {
    /// An environment with nothing bound.
    pub fn new() -> (e: Environment)
        ensures
            e@ == Seq::<BindingView>::empty(),
            distinct_names(e@),
    {
        let e = Environment { bindings: Vec::new() };
        proof {
            assert(e@ =~= Seq::<BindingView>::empty());
        }
        e
    }

    /// The slot that holds `name`, if it is bound.
    pub fn position(&self, name: &String) -> (r: Option<usize>)
        ensures
            match r {
                Some(i) => position(self@, name@) == Some(i as int),
                None => position(self@, name@) is None,
            },
    {
        let mut i: usize = 0;
        while i < self.bindings.len()
            invariant
                i <= self.bindings.len(),
                forall|j: int| 0 <= j < i ==> (#[trigger] self@[j]).0 != name@,
            decreases self.bindings.len() - i,
        {
            proof {
                assert(self@[i as int].0 == self.bindings@[i as int].name@);
            }
            if self.bindings[i].name == *name {
                proof {
                    lemma_position_is(self@, name@, i as int);
                }
                return Some(i);
            }
            i = i + 1;
        }
        proof {
            lemma_position_none(self@, name@);
        }
        None
    }

    /// Binds `name` to `value`, overwriting its slot where it has one.
    pub fn bind(&mut self, name: String, value: Value, constant: bool)
        ensures
            final(self)@ == bind(old(self)@, name@, value@, constant),
            distinct_names(old(self)@) ==> distinct_names(final(self)@),
    {
        proof {
            if distinct_names(self@) {
                lemma_bind_distinct(self@, name@, value@, constant);
            }
        }
        match self.position(&name) {
            Some(i) => {
                let ghost before = self.bindings@;
                self.bindings.set(i, Binding { name, value, constant });
                proof {
                    assert(self@ =~= binding_views(before).update(i as int, (name@, value@, constant)));
                }
            },
            None => {
                let ghost before = self.bindings@;
                let ghost nv = name@;
                let ghost vv = value@;
                self.bindings.push(Binding { name, value, constant });
                proof {
                    assert(self@ =~= binding_views(before).push((nv, vv, constant)));
                }
            },
        }
    }

    /// The names bound here, in slot order.
    pub fn names(&self) -> (v: Vec<String>)
        ensures
            crate::suggest::string_views(v@) == names_of(self@),
    {
        let mut v: Vec<String> = Vec::new();
        let mut i: usize = 0;
        while i < self.bindings.len()
            invariant
                i <= self.bindings.len(),
                v.len() == i,
                forall|j: int| 0 <= j < i ==> #[trigger] v@[j]@ == self.bindings@[j].name@,
            decreases self.bindings.len() - i,
        {
            v.push(copy_string(&self.bindings[i].name));
            i = i + 1;
        }
        proof {
            assert(crate::suggest::string_views(v@) =~= names_of(self@));
        }
        v
    }
}

} // verus!
