use vstd::prelude::*;
use vstd::pervasive::VecAdditionalExecFns;

verus! {

/// Lifetime class of a constructed value: built once per process, once per
/// incoming request, or rebuilt at every use site.
#[derive(Clone, Copy, PartialEq, Eq, Structural, Debug)]
pub enum Scope {
    Singleton,
    RequestScoped,
    Transient,
}

/// Identity of a type: an owning origin (package identifier), a name, and the
/// ordered generic arguments, each an index into the blueprint's type table.
#[derive(Debug)]
pub struct TypeInfo {
    pub origin: u64,
    pub name: String,
    pub generics: Vec<usize>,
}

/// A fully qualified function: its path, owning origin, ordered input types
/// and single output type, all types as indices into the type table.
#[derive(Debug)]
pub struct Callable {
    pub path: String,
    pub origin: u64,
    pub inputs: Vec<usize>,
    pub output: usize,
}

/// A registered constructor: the callable that produces a type and the
/// declared scope of the produced value.
#[derive(Debug)]
pub struct Constructor {
    pub callable: Callable,
    pub scope: Scope,
}

/// Ghost image of one registry entry: everything resolution reads of a
/// constructor.
pub ghost struct CtorModel {
    pub inputs: Seq<usize>,
    pub output: usize,
    pub scope: Scope,
}

/// Errors that arise while a blueprint is assembled, before resolution runs.
#[derive(Debug)]
pub enum BlueprintError {
    /// A second constructor was registered for a type that already has one.
    DuplicateConstructor { ty: usize },
    /// Two routes were registered with the identical path string.
    DuplicateRoute { path: String },
}

/// Mapping from a produced type to the callable that constructs it and its
/// declared scope. At most one constructor is registered per type.
pub struct Registry {
    types: Vec<TypeInfo>,
    ctors: Vec<Option<Constructor>>,
}

impl Registry {
    /// The registry as resolution sees it: for every type index, either no
    /// constructor or the constructor's inputs, output and scope.
    pub closed spec fn model(&self) -> Seq<Option<CtorModel>> {
        self.ctors@.map(
            |i: int, c: Option<Constructor>|
                match c {
                    Option::None => Option::<CtorModel>::None,
                    Option::Some(k) => Option::Some(
                        CtorModel {
                            inputs: k.callable.inputs@,
                            output: k.callable.output,
                            scope: k.scope,
                        },
                    ),
                },
        )
    }

    /// The name of every type in the table, by index.
    pub closed spec fn names(&self) -> Seq<Seq<char>> {
        self.types@.map(|i: int, t: TypeInfo| t.name@)
    }

    /// The origin of every type in the table, by index.
    pub closed spec fn origins(&self) -> Seq<u64> {
        self.types@.map(|i: int, t: TypeInfo| t.origin)
    }

    pub closed spec fn n_types(&self) -> nat {
        self.types@.len()
    }

    pub closed spec fn wf(&self) -> bool {
        self.ctors@.len() == self.types@.len()
    }

    /// A fresh registry over the given type table, with nothing registered.
    pub fn new(types: Vec<TypeInfo>) -> (r: Registry)
        ensures
            r.wf(),
            r.n_types() == types@.len(),
            r.names() == types@.map(|i: int, t: TypeInfo| t.name@),
            r.origins() == types@.map(|i: int, t: TypeInfo| t.origin),
            forall|t: int| 0 <= t < types@.len() ==> r.model()[t] is None,
            r.model().len() == types@.len(),
    {
        let n = types.len();
        let mut ctors: Vec<Option<Constructor>> = Vec::new();
        let mut i: usize = 0;
        while i < n
            invariant
                i <= n,
                ctors@.len() == i,
                forall|j: int| 0 <= j < i ==> ctors@[j] is None,
            decreases n - i,
        {
            ctors.push(None);
            i = i + 1;
        }
        Registry { types, ctors }
    }

    /// The registry's model has one entry per type of the table.
    pub proof fn lemma_model_len(&self)
        requires
            self.wf(),
        ensures
            self.model().len() == self.n_types(),
    {
    }

    /// The number of types in the table.
    pub fn type_count(&self) -> (r: usize)
        requires
            self.wf(),
        ensures
            r == self.n_types(),
            self.model().len() == r,
    {
        proof {
            self.lemma_model_len();
        }
        self.types.len()
    }

    /// Register `callable` as the constructor of type `ty` with the given
    /// scope. A second registration for the same type is rejected with
    /// `DuplicateConstructor`: ambiguity is a build-time error.
    pub fn register(&mut self, ty: usize, callable: Callable, scope: Scope) -> (r: Result<
        (),
        BlueprintError,
    >)
        requires
            old(self).wf(),
            ty < old(self).n_types(),
        ensures
            final(self).wf(),
            final(self).n_types() == old(self).n_types(),
            final(self).names() == old(self).names(),
            final(self).origins() == old(self).origins(),
            match r {
                Ok(()) => old(self).model()[ty as int] is None && final(self).model() == old(
                    self,
                ).model().update(
                    ty as int,
                    Some(
                        CtorModel { inputs: callable.inputs@, output: callable.output, scope },
                    ),
                ),
                Err(e) => {
                    &&& e matches BlueprintError::DuplicateConstructor { ty: t } && t == ty
                    &&& old(self).model()[ty as int] is Some
                    &&& final(self).model() == old(self).model()
                },
            },
    {
        if self.ctors[ty].is_some() {
            Err(BlueprintError::DuplicateConstructor { ty })
        } else {
            self.ctors.set(ty, Some(Constructor { callable, scope }));
            proof {
                assert(self.model() =~= old(self).model().update(
                    ty as int,
                    Some(
                        CtorModel {
                            inputs: callable.inputs@,
                            output: callable.output,
                            scope,
                        },
                    ),
                ));
            }
            Ok(())
        }
    }

    /// The declared scope of `ty`'s constructor, if one is registered.
    pub fn scope_of(&self, ty: usize) -> (r: Option<Scope>)
        requires
            self.wf(),
        ensures
            match r {
                Some(s) => ty < self.model().len() && (self.model()[ty as int] matches Some(c)
                    && c.scope == s),
                None => !(ty < self.model().len() && self.model()[ty as int] is Some),
            },
    {
        if ty < self.ctors.len() {
            match &self.ctors[ty] {
                Some(c) => Some(c.scope),
                None => None,
            }
        } else {
            None
        }
    }

    /// The input types of `ty`'s constructor, if one is registered.
    pub fn inputs_of(&self, ty: usize) -> (r: Option<&Vec<usize>>)
        requires
            self.wf(),
        ensures
            match r {
                Some(v) => ty < self.model().len() && (self.model()[ty as int] matches Some(c)
                    && c.inputs == v@),
                None => !(ty < self.model().len() && self.model()[ty as int] is Some),
            },
    {
        if ty < self.ctors.len() {
            match &self.ctors[ty] {
                Some(c) => Some(&c.callable.inputs),
                None => None,
            }
        } else {
            None
        }
    }

    /// The name of type `ty`, cloned from the type table.
    pub fn name_of(&self, ty: usize) -> (r: String)
        requires
            self.wf(),
            ty < self.n_types(),
        ensures
            r@ == self.names()[ty as int],
    {
        self.types[ty].name.clone()
    }

    /// The origin of type `ty`.
    pub fn origin_of(&self, ty: usize) -> (r: u64)
        requires
            self.wf(),
            ty < self.n_types(),
        ensures
            r == self.origins()[ty as int],
    {
        self.types[ty].origin
    }
}

} // verus!
