//! The registry of builtins, checked when it is built, and the binding of a
//! call's arguments to a builtin's parameters.

use vstd::prelude::*;

use crate::ast::{ArgModel, ArgNode, ValueModel, ValueNode};
use crate::chart::{is_grid, Chart};
use crate::value::{refers_undefined, resolve, CallError, Context, RuntimeModel, Value};
use vstd::string::StringExecFns;

verus! {

/// A default value for a parameter.
#[derive(Debug, Clone, Copy, PartialEq, Eq, Structural)]
pub enum ParamValue {
    Number(i32),
}

/// The kind of value a parameter takes.
#[derive(Debug, Clone, Copy, PartialEq, Eq, Structural)]
pub enum ParamType {
    Chart,
    Number,
    String,
}

/// One declared parameter: its name, type and optional default.
#[derive(Debug)]
pub struct ParamDesc {
    pub param_name: String,
    pub param_type: ParamType,
    pub default: Option<ParamValue>,
}

impl ParamDesc {
    pub fn new(name: &str, param_type: ParamType, default: Option<ParamValue>) -> (r: ParamDesc)
        ensures
            r.param_name@ == name@,
            r.param_type == param_type,
            r.default == default,
    {
        ParamDesc { param_name: String::from_str(name), param_type, default }
    }
}

/// A named operation and its ordered parameters.
#[derive(Debug)]
pub struct Builtin {
    pub name: String,
    pub params: Vec<ParamDesc>,
}

/// Why a builtin or a registry was refused.
#[derive(Debug, Clone, PartialEq, Eq)]
pub enum RegistryError {
    /// A parameter without default follows one with a default.
    DefaultBeforeRequired(String),
    /// Two parameters share this name.
    DuplicateParam(String),
    /// Two builtins share this name.
    DuplicateBuiltin(String),
}

/// No two parameters share a name.
pub open spec fn names_unique(ps: Seq<ParamDesc>) -> bool {
    forall|a: int, b: int| 0 <= a < b < ps.len() ==> ps[a].param_name@ != ps[b].param_name@
}

/// Once a parameter has a default, every later one has one too.
pub open spec fn defaults_trailing(ps: Seq<ParamDesc>) -> bool {
    forall|a: int, b: int| 0 <= a < b < ps.len() && ps[a].default is Some ==> ps[b].default is Some
}

pub open spec fn valid_params(ps: Seq<ParamDesc>) -> bool {
    names_unique(ps) && defaults_trailing(ps)
}

/// Every builtin is valid and no two share a name.
pub open spec fn registry_ok(bs: Seq<Builtin>) -> bool {
    &&& forall|k: int| 0 <= k < bs.len() ==> valid_params((#[trigger] bs[k]).params@)
    &&& forall|a: int, b: int| 0 <= a < b < bs.len() ==> bs[a].name@ != bs[b].name@
}

impl Builtin {
    pub fn new(name: &str, params: Vec<ParamDesc>) -> (r: Builtin)
        ensures
            r.name@ == name@,
            r.params == params,
    {
        Builtin { name: String::from_str(name), params }
    }

    /// Checks that defaults form a trailing run and that parameter names are
    /// unique, in that order.
    pub fn validate(&self) -> (r: Result<(), RegistryError>)
        ensures
            r is Ok <==> valid_params(self.params@),
            !defaults_trailing(self.params@) ==> r matches Err(RegistryError::DefaultBeforeRequired(_)),
            defaults_trailing(self.params@) && !names_unique(self.params@) ==> r matches Err(
                RegistryError::DuplicateParam(_),
            ),
    {
        let mut seen_default = false;
        let mut i: usize = 0;
        while i < self.params.len()
            invariant
                i <= self.params@.len(),
                defaults_trailing(self.params@.take(i as int)),
                seen_default <==> exists|a: int| 0 <= a < i && (#[trigger] self.params@[a]).default is Some,
                seen_default ==> self.params@[i - 1].default is Some,
            decreases self.params.len() - i,
        {
            if self.params[i].default.is_none() && seen_default {
                assert(!defaults_trailing(self.params@)) by {
                    let a = choose|a: int| 0 <= a < i && (#[trigger] self.params@[a]).default is Some;
                    assert(self.params@[a].default is Some && self.params@[i as int].default is None);
                }
                return Err(RegistryError::DefaultBeforeRequired(self.params[i].param_name.clone()));
            }
            if self.params[i].default.is_some() {
                seen_default = true;
            }
            i = i + 1;
            assert forall|a: int, b: int| 0 <= a < b < i && (#[trigger] self.params@.take(i as int)[a]).default is Some
                implies (#[trigger] self.params@.take(i as int)[b]).default is Some by {
                if b < i - 1 {
                    assert(self.params@.take(i as int)[a] == self.params@.take(i - 1)[a]);
                    assert(self.params@.take(i as int)[b] == self.params@.take(i - 1)[b]);
                }
            }
        }
        assert(self.params@.take(self.params@.len() as int) =~= self.params@);
        let mut i: usize = 0;
        while i < self.params.len()
            invariant
                i <= self.params@.len(),
                defaults_trailing(self.params@),
                forall|a: int, b: int| 0 <= a < b < self.params@.len() && a < i ==> self.params@[a].param_name@ != self.params@[b].param_name@,
            decreases self.params.len() - i,
        {
            let mut j: usize = i + 1;
            while j < self.params.len()
                invariant
                    defaults_trailing(self.params@),
                    i < self.params@.len(),
                    i + 1 <= j <= self.params@.len(),
                    forall|a: int, b: int| 0 <= a < b < self.params@.len() && a < i ==> self.params@[a].param_name@ != self.params@[b].param_name@,
                    forall|b: int| i < b < j ==> self.params@[i as int].param_name@ != self.params@[b].param_name@,
                decreases self.params.len() - j,
            {
                if self.params[i].param_name == self.params[j].param_name {
                    return Err(RegistryError::DuplicateParam(self.params[i].param_name.clone()));
                }
                j = j + 1;
            }
            i = i + 1;
        }
        Ok(())
    }
}

/// A table of builtins with unique names, each with valid parameters.
#[derive(Debug)]
pub struct Registry {
    builtins: Vec<Builtin>,
}

impl View for Registry {
    type V = Seq<Builtin>;

    closed spec fn view(&self) -> Seq<Builtin> {
        self.builtins@
    }
}

impl Registry {
    pub fn new() -> (r: Registry)
        ensures
            r@ == Seq::<Builtin>::empty(),
    {
        Registry { builtins: Vec::new() }
    }

    /// Adds `builtin` unless its name is taken or its parameters are
    /// invalid; the name is checked first.
    pub fn register(&mut self, builtin: Builtin) -> (r: Result<(), RegistryError>)
        ensures
            r is Ok <==> (valid_params(builtin.params@) && forall|k: int|
                0 <= k < old(self)@.len() ==> (#[trigger] old(self)@[k]).name@ != builtin.name@),
            r is Ok ==> final(self)@ == old(self)@.push(builtin),
            r is Err ==> final(self)@ == old(self)@,
            (exists|k: int| 0 <= k < old(self)@.len() && (#[trigger] old(self)@[k]).name@ == builtin.name@)
                ==> r matches Err(RegistryError::DuplicateBuiltin(_)),
            registry_ok(old(self)@) ==> registry_ok(final(self)@),
    {
        match self.index_of(builtin.name.as_str()) {
            Some(_) => return Err(RegistryError::DuplicateBuiltin(builtin.name.clone())),
            None => {},
        }
        match builtin.validate() {
            Ok(()) => {},
            Err(e) => return Err(e),
        }
        let ghost before = self.builtins@;
        self.builtins.push(builtin);
        proof {
            if registry_ok(before) {
                assert forall|a: int, b: int| 0 <= a < b < self.builtins@.len() implies
                    self.builtins@[a].name@ != self.builtins@[b].name@ by {
                    if b < before.len() {
                        assert(before[a] == self.builtins@[a]);
                    }
                }
            }
        }
        Ok(())
    }

    /// The index of the builtin named `name`.
    pub fn index_of(&self, name: &str) -> (r: Option<usize>)
        ensures
            r matches Some(k) ==> k < self@.len() && self@[k as int].name@ == name@,
            r is None ==> forall|k: int| 0 <= k < self@.len() ==> (#[trigger] self@[k]).name@ != name@,
    {
        let key = String::from_str(name);
        let mut i: usize = 0;
        while i < self.builtins.len()
            invariant
                i <= self.builtins@.len(),
                key@ == name@,
                forall|k: int| 0 <= k < i ==> (#[trigger] self.builtins@[k]).name@ != name@,
            decreases self.builtins.len() - i,
        {
            if self.builtins[i].name == key {
                return Some(i);
            }
            i = i + 1;
        }
        None
    }

    /// The builtin named `name`, if any.
    pub fn get(&self, name: &str) -> (r: Option<&Builtin>)
        ensures
            r matches Some(b) ==> exists|k: int| 0 <= k < self@.len() && self@[k] == *b && b.name@ == name@,
            r is None ==> forall|k: int| 0 <= k < self@.len() ==> (#[trigger] self@[k]).name@ != name@,
    {
        match self.index_of(name) {
            Some(k) => Some(&self.builtins[k]),
            None => None,
        }
    }
}

/// Why a call's arguments cannot be bound.
pub enum BindFault {
    /// How many parameters there are, how many positional arguments came.
    TooMany(int, int),
    UnknownParam(Seq<char>),
    Undefined(Seq<char>),
    Missing(Seq<char>),
}

/// The positional arguments, in order.
pub open spec fn positional(args: Seq<ArgModel>) -> Seq<ArgModel>
    decreases args.len(),
{
    if args.len() == 0 {
        Seq::empty()
    } else if args.last().name is None {
        positional(args.drop_last()).push(args.last())
    } else {
        positional(args.drop_last())
    }
}

/// The named arguments, in order.
pub open spec fn named(args: Seq<ArgModel>) -> Seq<ArgModel>
    decreases args.len(),
{
    if args.len() == 0 {
        Seq::empty()
    } else if args.last().name is Some {
        named(args.drop_last()).push(args.last())
    } else {
        named(args.drop_last())
    }
}

pub open spec fn has_param(ps: Seq<ParamDesc>, n: Seq<char>) -> bool {
    exists|k: int| 0 <= k < ps.len() && (#[trigger] ps[k]).param_name@ == n
}

/// The first named argument whose name no parameter has.
pub open spec fn first_unknown(ps: Seq<ParamDesc>, nm: Seq<ArgModel>) -> Option<Seq<char>>
    decreases nm.len(),
{
    if nm.len() == 0 {
        None
    } else if !has_param(ps, nm[0].name->0) {
        Some(nm[0].name->0)
    } else {
        first_unknown(ps, nm.drop_first())
    }
}

/// The first argument that names an undefined variable.
pub open spec fn first_undefined(
    args: Seq<ArgModel>,
    ctx: Map<Seq<char>, RuntimeModel>,
) -> Option<Seq<char>>
    decreases args.len(),
{
    if args.len() == 0 {
        None
    } else if refers_undefined(args[0].value, ctx) {
        Some(args[0].value->Ident_0)
    } else {
        first_undefined(args.drop_first(), ctx)
    }
}

/// The value of the last named argument called `p`.
pub open spec fn last_named(nm: Seq<ArgModel>, p: Seq<char>) -> Option<ValueModel>
    decreases nm.len(),
{
    if nm.len() == 0 {
        None
    } else if nm.last().name == Some(p) {
        Some(nm.last().value)
    } else {
        last_named(nm.drop_last(), p)
    }
}

pub open spec fn default_model(d: Option<ParamValue>) -> Option<RuntimeModel> {
    match d {
        Some(ParamValue::Number(n)) => Some(RuntimeModel::Number(n as int)),
        None => None,
    }
}

/// What parameter `k` is bound to: the last named argument for it, else
/// the positional argument at its index, else its default.
pub open spec fn bound_value(
    ps: Seq<ParamDesc>,
    k: int,
    args: Seq<ArgModel>,
    ctx: Map<Seq<char>, RuntimeModel>,
) -> Option<RuntimeModel> {
    match last_named(named(args), ps[k].param_name@) {
        Some(v) => Some(resolve(v, ctx)),
        None => if k < positional(args).len() {
            Some(resolve(positional(args)[k].value, ctx))
        } else {
            default_model(ps[k].default)
        },
    }
}

/// The first parameter from `k` on that nothing binds.
pub open spec fn first_missing(ps: Seq<ParamDesc>, args: Seq<ArgModel>, k: int) -> Option<Seq<char>>
    decreases ps.len() - k,
{
    if k < 0 || k >= ps.len() {
        None
    } else if last_named(named(args), ps[k].param_name@) is None && k >= positional(args).len()
        && ps[k].default is None {
        Some(ps[k].param_name@)
    } else {
        first_missing(ps, args, k + 1)
    }
}

/// Binding `args` to the parameters `ps` in the context `ctx`: checked for
/// too many positional arguments, then unknown names, then undefined
/// variables, then parameters left without a value; on success each
/// parameter in order with its value.
pub open spec fn bind_spec(
    ps: Seq<ParamDesc>,
    args: Seq<ArgModel>,
    ctx: Map<Seq<char>, RuntimeModel>,
) -> Result<Seq<(Seq<char>, RuntimeModel)>, BindFault> {
    let pos = positional(args);
    let nm = named(args);
    if pos.len() > ps.len() {
        Err(BindFault::TooMany(ps.len() as int, pos.len() as int))
    } else if first_unknown(ps, nm) is Some {
        Err(BindFault::UnknownParam(first_unknown(ps, nm)->0))
    } else if first_undefined(pos + nm, ctx) is Some {
        Err(BindFault::Undefined(first_undefined(pos + nm, ctx)->0))
    } else if first_missing(ps, args, 0) is Some {
        Err(BindFault::Missing(first_missing(ps, args, 0)->0))
    } else {
        Ok(Seq::new(ps.len(), |k: int| (ps[k].param_name@, bound_value(ps, k, args, ctx)->0)))
    }
}

/// A builtin with every parameter bound, ready to run.
#[derive(Debug)]
pub struct Invocation {
    pub name: String,
    pub params: Vec<(String, Value)>,
}

pub open spec fn bound_models(v: Seq<(String, Value)>) -> Seq<(Seq<char>, RuntimeModel)> {
    v.map_values(|e: (String, Value)| (e.0@, e.1@))
}

pub open spec fn arg_node_models(v: Seq<ArgNode>) -> Seq<ArgModel> {
    v.map_values(|a: ArgNode| a@)
}

/// `r` is what binding `args` to builtin `b` in `ctx` gives.
pub open spec fn bind_result(
    b: Builtin,
    args: Seq<ArgModel>,
    ctx: Map<Seq<char>, RuntimeModel>,
    r: Result<Invocation, CallError>,
) -> bool {
    match bind_spec(b.params@, args, ctx) {
        Ok(m) => r matches Ok(inv) && inv.name@ == b.name@ && bound_models(inv.params@) == m
            && forall|i: int| 0 <= i < inv.params@.len() ==> (#[trigger] inv.params@[i]).1.wf(),
        Err(BindFault::TooMany(e, g)) => r matches Err(CallError::TooManyArguments(n, x, y))
            && n@ == b.name@ && x == e && y == g,
        Err(BindFault::UnknownParam(p)) => r matches Err(CallError::UnknownParam(n, q)) && n@
            == b.name@ && q@ == p,
        Err(BindFault::Undefined(v)) => r matches Err(CallError::UndefinedVariable(q)) && q@ == v,
        Err(BindFault::Missing(p)) => r matches Err(CallError::MissingArgument(n, q)) && n@
            == b.name@ && q@ == p,
    }
}

/// The arguments at the given indices.
pub open spec fn pick(ams: Seq<ArgModel>, ix: Seq<usize>) -> Seq<ArgModel> {
    ix.map_values(|j: usize| ams[j as int])
}

/// The index of the first parameter named `name`.
fn param_index(ps: &Vec<ParamDesc>, name: &String) -> (r: Option<usize>)
    ensures
        r matches Some(k) ==> k < ps@.len() && ps@[k as int].param_name@ == name@,
        r is None <==> !has_param(ps@, name@),
{
    let mut k: usize = 0;
    while k < ps.len()
        invariant
            k <= ps@.len(),
            forall|m: int| 0 <= m < k ==> (#[trigger] ps@[m]).param_name@ != name@,
        decreases ps.len() - k,
    {
        if ps[k].param_name == *name {
            return Some(k);
        }
        k = k + 1;
    }
    None
}

/// The index into `args` of the last named argument called `p`.
fn last_named_index(args: &Vec<ArgNode>, named_idx: &Vec<usize>, p: &String) -> (r: Option<usize>)
    requires
        forall|t: int| 0 <= t < named_idx@.len() ==> (#[trigger] named_idx@[t]) < args@.len(),
    ensures
        ({
            let nm = pick(arg_node_models(args@), named_idx@);
            match last_named(nm, p@) {
                Some(v) => r matches Some(j) && (exists|t: int| 0 <= t < named_idx@.len() && named_idx@[t] == j)
                    && j < args@.len() && args@[j as int].0@ == v,
                None => r is None,
            }
        }),
{
    let ghost ams = arg_node_models(args@);
    let ghost nm = pick(ams, named_idx@);
    let mut t: usize = named_idx.len();
    assert(nm.take(t as int) =~= nm);
    while t > 0
        invariant
            t <= named_idx@.len(),
            nm == pick(ams, named_idx@),
            ams == arg_node_models(args@),
            forall|u: int| 0 <= u < named_idx@.len() ==> (#[trigger] named_idx@[u]) < args@.len(),
            last_named(nm, p@) == last_named(nm.take(t as int), p@),
        decreases t,
    {
        let j = named_idx[t - 1];
        assert(nm.take(t as int).drop_last() =~= nm.take(t - 1));
        assert(nm.take(t as int).last() == ams[j as int]);
        let hit = match &args[j].1 {
            Some(n) => *n == *p,
            None => false,
        };
        if hit {
            return Some(j);
        }
        t = t - 1;
    }
    None
}

/// Binds a call's arguments to `builtin`'s parameters and evaluates them in
/// `context`.
pub fn bind(builtin: &Builtin, args: &Vec<ArgNode>, context: &Context) -> (r: Result<Invocation, CallError>)
    requires
        context.wf(),
    ensures
        bind_result(*builtin, arg_node_models(args@), context@, r),
{
    let ghost ams = arg_node_models(args@);
    let ghost ps = builtin.params@;
    let ghost ctx = context@;
    let ghost pos = positional(ams);
    let ghost nm = named(ams);

    // Split the arguments into positional and named ones, keeping their order.
    let mut pos_idx: Vec<usize> = Vec::new();
    let mut named_idx: Vec<usize> = Vec::new();
    let mut i: usize = 0;
    assert(ams.take(0) =~= Seq::<ArgModel>::empty());
    assert(pick(ams, pos_idx@) =~= Seq::<ArgModel>::empty());
    assert(pick(ams, named_idx@) =~= Seq::<ArgModel>::empty());
    while i < args.len()
        invariant
            i <= args@.len(),
            ams == arg_node_models(args@),
            pick(ams, pos_idx@) == positional(ams.take(i as int)),
            pick(ams, named_idx@) == named(ams.take(i as int)),
            forall|t: int| 0 <= t < pos_idx@.len() ==> (#[trigger] pos_idx@[t]) < i,
            forall|t: int| 0 <= t < named_idx@.len() ==> (#[trigger] named_idx@[t]) < i,
        decreases args.len() - i,
    {
        assert(ams.take(i + 1).drop_last() =~= ams.take(i as int));
        assert(ams.take(i + 1).last() == ams[i as int]);
        if args[i].1.is_none() {
            pos_idx.push(i);
            assert(pick(ams, pos_idx@) =~= positional(ams.take(i as int)).push(ams[i as int]));
        } else {
            named_idx.push(i);
            assert(pick(ams, named_idx@) =~= named(ams.take(i as int)).push(ams[i as int]));
        }
        i = i + 1;
    }
    assert(ams.take(args@.len() as int) =~= ams);

    proof {
        lemma_split_names(ams);
    }
    let ps_len = builtin.params.len();
    if pos_idx.len() > ps_len {
        return Err(CallError::TooManyArguments(builtin.name.clone(), ps_len, pos_idx.len()));
    }

    // Every named argument must name a parameter.
    let mut t: usize = 0;
    assert(nm.subrange(0, nm.len() as int) =~= nm);
    while t < named_idx.len()
        invariant
            t <= named_idx@.len(),
            nm == pick(ams, named_idx@),
            ams == arg_node_models(args@),
            pos == positional(ams),
            nm == named(ams),
            ps == builtin.params@,
            pos.len() <= ps.len(),
            forall|u: int| 0 <= u < named_idx@.len() ==> (#[trigger] named_idx@[u]) < args@.len(),
            forall|u: int| 0 <= u < nm.len() ==> (#[trigger] nm[u]).name is Some,
            first_unknown(ps, nm) == first_unknown(ps, nm.subrange(t as int, nm.len() as int)),
        decreases named_idx.len() - t,
    {
        let j = named_idx[t];
        assert(nm.subrange(t as int, nm.len() as int).drop_first() =~= nm.subrange(t + 1, nm.len() as int));
        assert(nm[t as int] == ams[j as int]);
        match &args[j].1 {
            Some(n) => {
                if param_index(&builtin.params, n).is_none() {
                    return Err(CallError::UnknownParam(builtin.name.clone(), n.clone()));
                }
            },
            None => {},
        }
        t = t + 1;
    }

    // No argument may name an undefined variable: positional ones first.
    let mut t: usize = 0;
    assert(pos.subrange(0, pos.len() as int) + nm =~= pos + nm);
    while t < pos_idx.len()
        invariant
            t <= pos_idx@.len(),
            pos == pick(ams, pos_idx@),
            nm == pick(ams, named_idx@),
            ams == arg_node_models(args@),
            ctx == context@,
            pos == positional(ams),
            nm == named(ams),
            ps == builtin.params@,
            pos.len() <= ps.len(),
            first_unknown(ps, nm) is None,
            forall|u: int| 0 <= u < pos_idx@.len() ==> (#[trigger] pos_idx@[u]) < args@.len(),
            first_undefined(pos + nm, ctx) == first_undefined(pos.subrange(t as int, pos.len() as int) + nm, ctx),
            forall|u: int| 0 <= u < t ==> !refers_undefined((#[trigger] pos[u]).value, ctx),
        decreases pos_idx.len() - t,
    {
        let j = pos_idx[t];
        assert((pos.subrange(t as int, pos.len() as int) + nm).drop_first() =~= pos.subrange(t + 1, pos.len() as int) + nm);
        assert((pos.subrange(t as int, pos.len() as int) + nm)[0] == ams[j as int]);
        match &args[j].0 {
            ValueNode::Ident(n) => {
                if !context.contains(n.as_str()) {
                    return Err(CallError::UndefinedVariable(n.clone()));
                }
            },
            _ => {},
        }
        t = t + 1;
    }
    assert(pos.subrange(pos.len() as int, pos.len() as int) + nm =~= nm);
    assert(nm.subrange(0, nm.len() as int) =~= nm);
    // Then named ones.
    let mut t: usize = 0;
    while t < named_idx.len()
        invariant
            t <= named_idx@.len(),
            nm == pick(ams, named_idx@),
            ams == arg_node_models(args@),
            ctx == context@,
            pos == positional(ams),
            nm == named(ams),
            ps == builtin.params@,
            pos.len() <= ps.len(),
            first_unknown(ps, nm) is None,
            forall|u: int| 0 <= u < pos.len() ==> !refers_undefined((#[trigger] pos[u]).value, ctx),
            forall|u: int| 0 <= u < named_idx@.len() ==> (#[trigger] named_idx@[u]) < args@.len(),
            first_undefined(pos + nm, ctx) == first_undefined(nm.subrange(t as int, nm.len() as int), ctx),
            forall|u: int| 0 <= u < t ==> !refers_undefined((#[trigger] nm[u]).value, ctx),
        decreases named_idx.len() - t,
    {
        let j = named_idx[t];
        assert(nm.subrange(t as int, nm.len() as int).drop_first() =~= nm.subrange(t + 1, nm.len() as int));
        assert(nm.subrange(t as int, nm.len() as int)[0] == ams[j as int]);
        match &args[j].0 {
            ValueNode::Ident(n) => {
                if !context.contains(n.as_str()) {
                    return Err(CallError::UndefinedVariable(n.clone()));
                }
            },
            _ => {},
        }
        t = t + 1;
    }

    assert(nm.subrange(nm.len() as int, nm.len() as int) =~= Seq::<ArgModel>::empty());
    // Bind each parameter in order.
    let mut out: Vec<(String, Value)> = Vec::new();
    let mut k: usize = 0;
    while k < ps_len
        invariant
            k <= ps_len,
            ps_len == ps.len(),
            ps == builtin.params@,
            pos == pick(ams, pos_idx@),
            nm == pick(ams, named_idx@),
            ams == arg_node_models(args@),
            ctx == context@,
            context.wf(),
            pos.len() <= ps.len(),
            pos == positional(ams),
            nm == named(ams),
            first_unknown(ps, nm) is None,
            first_undefined(pos + nm, ctx) is None,
            forall|u: int| 0 <= u < pos_idx@.len() ==> (#[trigger] pos_idx@[u]) < args@.len(),
            forall|u: int| 0 <= u < named_idx@.len() ==> (#[trigger] named_idx@[u]) < args@.len(),
            forall|u: int| 0 <= u < pos.len() ==> !refers_undefined((#[trigger] pos[u]).value, ctx),
            forall|u: int| 0 <= u < nm.len() ==> !refers_undefined((#[trigger] nm[u]).value, ctx),
            first_missing(ps, ams, 0) == first_missing(ps, ams, k as int),
            out@.len() == k,
            forall|u: int| 0 <= u < k ==> (#[trigger] out@[u]).0@ == ps[u].param_name@,
            forall|u: int| 0 <= u < k ==> bound_value(ps, u, ams, ctx) == Some((#[trigger] out@[u]).1@),
            forall|u: int| 0 <= u < k ==> (#[trigger] out@[u]).1.wf(),
        decreases ps_len - k,
    {
        let pname = &builtin.params[k].param_name;
        let value = match last_named_index(args, &named_idx, pname) {
            Some(j) => {
                proof {
                    let t = choose|t: int| 0 <= t < named_idx@.len() && named_idx@[t] == j;
                    assert(nm[t] == ams[j as int]);
                }
                match Value::from_arg(&args[j], context) {
                    Ok(v) => v,
                    Err(e) => return Err(e),
                }
            },
            None => {
                if k < pos_idx.len() {
                    let j = pos_idx[k];
                    assert(pos[k as int] == ams[j as int]);
                    match Value::from_arg(&args[j], context) {
                        Ok(v) => v,
                        Err(e) => return Err(e),
                    }
                } else {
                    match builtin.params[k].default {
                        Some(ParamValue::Number(n)) => Value::Number(n),
                        None => {
                            return Err(CallError::MissingArgument(builtin.name.clone(), pname.clone()));
                        },
                    }
                }
            },
        };
        assert(value@ == bound_value(ps, k as int, ams, ctx)->0);
        let ghost before = out@;
        out.push((pname.clone(), value));
        assert(forall|u: int| 0 <= u < k ==> out@[u] == before[u]);
        k = k + 1;
    }
    let r = Invocation { name: builtin.name.clone(), params: out };
    assert(bound_models(r.params@) =~= Seq::new(ps.len(), |k: int| (ps[k].param_name@, bound_value(ps, k, ams, ctx)->0)));
    Ok(r)
}

proof fn lemma_split_names(ams: Seq<ArgModel>)
    ensures
        forall|u: int| 0 <= u < named(ams).len() ==> (#[trigger] named(ams)[u]).name is Some,
    decreases ams.len(),
{
    if ams.len() > 0 {
        lemma_split_names(ams.drop_last());
    }
}

/// `r` is what calling `name` with `args` gives: an unknown-function error
/// when no builtin has that name, else the binding to that builtin.
pub open spec fn call_outcome(
    bs: Seq<Builtin>,
    name: Seq<char>,
    args: Seq<ArgModel>,
    ctx: Map<Seq<char>, RuntimeModel>,
    r: Result<Invocation, CallError>,
) -> bool {
    &&& (forall|k: int| 0 <= k < bs.len() ==> (#[trigger] bs[k]).name@ != name) ==> (r matches Err(
        CallError::UnknownFunc(n),
    ) && n@ == name)
    &&& forall|k: int| 0 <= k < bs.len() && (#[trigger] bs[k]).name@ == name ==> bind_result(
        bs[k],
        args,
        ctx,
        r,
    )
}

/// Looks up the builtin called `name` and binds `args` to it.
pub fn call(registry: &Registry, name: &str, args: &Vec<ArgNode>, context: &Context) -> (r: Result<Invocation, CallError>)
    requires
        registry_ok(registry@),
        context.wf(),
    ensures
        call_outcome(registry@, name@, arg_node_models(args@), context@, r),
{
    match registry.get(name) {
        Some(b) => bind(b, args, context),
        None => Err(CallError::UnknownFunc(String::from_str(name))),
    }
}

impl Registry {
    /// The builtins of the language: `pad(chart, pad_size = 1)`,
    /// `read(filename)` and `write(chart, filename)`.
    pub fn standard() -> (r: Registry)
        ensures
            registry_ok(r@),
            r@.len() == 3,
            r@[0].name@ == "pad"@,
            r@[0].params@.len() == 2,
            r@[0].params@[0].param_name@ == "chart"@,
            r@[0].params@[0].param_type == ParamType::Chart,
            r@[0].params@[0].default == None::<ParamValue>,
            r@[0].params@[1].param_name@ == "pad_size"@,
            r@[0].params@[1].param_type == ParamType::Number,
            r@[0].params@[1].default == Some(ParamValue::Number(1)),
            r@[1].name@ == "read"@,
            r@[1].params@.len() == 1,
            r@[1].params@[0].param_name@ == "filename"@,
            r@[1].params@[0].param_type == ParamType::String,
            r@[1].params@[0].default == None::<ParamValue>,
            r@[2].name@ == "write"@,
            r@[2].params@.len() == 2,
            r@[2].params@[0].param_name@ == "chart"@,
            r@[2].params@[0].param_type == ParamType::Chart,
            r@[2].params@[0].default == None::<ParamValue>,
            r@[2].params@[1].param_name@ == "filename"@,
            r@[2].params@[1].param_type == ParamType::String,
            r@[2].params@[1].default == None::<ParamValue>,
    {
        let mut r = Registry::new();
        let mut pad_params: Vec<ParamDesc> = Vec::new();
        pad_params.push(ParamDesc::new("chart", ParamType::Chart, None));
        pad_params.push(ParamDesc::new("pad_size", ParamType::Number, Some(ParamValue::Number(1))));
        let mut read_params: Vec<ParamDesc> = Vec::new();
        read_params.push(ParamDesc::new("filename", ParamType::String, None));
        let mut write_params: Vec<ParamDesc> = Vec::new();
        write_params.push(ParamDesc::new("chart", ParamType::Chart, None));
        write_params.push(ParamDesc::new("filename", ParamType::String, None));
        proof {
            reveal_strlit("chart");
            reveal_strlit("pad_size");
            reveal_strlit("filename");
            reveal_strlit("pad");
            reveal_strlit("read");
            reveal_strlit("write");
            assert("chart"@[0] != "pad_size"@[0]);
            assert("chart"@ != "pad_size"@);
            assert("chart"@[0] != "filename"@[0]);
            assert("chart"@ != "filename"@);
            assert("pad"@[0] != "read"@[0]);
            assert("pad"@ != "read"@);
            assert("pad"@[0] != "write"@[0]);
            assert("pad"@ != "write"@);
            assert("read"@[0] != "write"@[0]);
            assert("read"@ != "write"@);
        }
        let ok1 = r.register(Builtin::new("pad", pad_params));
        let ok2 = r.register(Builtin::new("read", read_params));
        let ok3 = r.register(Builtin::new("write", write_params));
        assert(ok1 is Ok && ok2 is Ok && ok3 is Ok);
        r
    }
}

/// The index of the first entry named `name`.
pub open spec fn first_named(ps: Seq<(Seq<char>, RuntimeModel)>, name: Seq<char>, k: int) -> Option<int>
    decreases ps.len() - k,
{
    if k < 0 || k >= ps.len() {
        None
    } else if ps[k].0 == name {
        Some(k)
    } else {
        first_named(ps, name, k + 1)
    }
}

impl Invocation {
    /// The value bound to the parameter `name`.
    pub fn param(&self, name: &str) -> (r: Option<&Value>)
        ensures
            match first_named(bound_models(self.params@), name@, 0) {
                Some(k) => r matches Some(v) && *v == self.params@[k].1,
                None => r is None,
            },
    {
        let key = String::from_str(name);
        let ghost bm = bound_models(self.params@);
        let mut k: usize = 0;
        while k < self.params.len()
            invariant
                k <= self.params@.len(),
                key@ == name@,
                bm == bound_models(self.params@),
                first_named(bm, name@, 0) == first_named(bm, name@, k as int),
            decreases self.params.len() - k,
        {
            if self.params[k].0 == key {
                return Some(&self.params[k].1);
            }
            k = k + 1;
        }
        None
    }
}

/// Runs the `pad` builtin: its `chart` parameter surrounded by one row and
/// column of empty stitches.
pub fn wrap_pad(inv: &Invocation) -> (r: Result<Value, CallError>)
    requires
        forall|i: int| 0 <= i < inv.params@.len() ==> (#[trigger] inv.params@[i]).1.wf(),
    ensures
        match first_named(bound_models(inv.params@), "chart"@, 0) {
            None => r matches Err(CallError::MissingArgument(b, p)) && b@ == "pad"@ && p@ == "chart"@,
            Some(k) => match inv.params@[k].1 {
                Value::Chart(c) => if c@.len() + 2 <= usize::MAX && c.width() + 2 <= usize::MAX {
                    r matches Ok(Value::Chart(p)) && p.wf() && is_grid(p@, c@.len() + 2int, c.width() + 2)
                        && forall|i: int, j: int| 0 <= i < c@.len() + 2 && 0 <= j < c.width() + 2 ==>
                        p@[i][j] == if 1 <= i <= c@.len() && 1 <= j <= c.width() {
                            c@[i - 1][j - 1]
                        } else {
                            '.'
                        }
                } else {
                    r matches Err(CallError::ChartTooBig)
                },
                other => r matches Err(CallError::WrongValueType(v)) && v@ == other@,
            },
        },
{
    let chart_value = match inv.param("chart") {
        Some(v) => v,
        None => {
            return Err(CallError::MissingArgument(String::from_str("pad"), String::from_str("chart")));
        },
    };
    proof {
        let k = first_named(bound_models(inv.params@), "chart"@, 0)->0;
        lemma_first_named_in_range(bound_models(inv.params@), "chart"@, 0);
        assert(inv.params@[k].1.wf());
    }
    let chart: &Chart = match chart_value.as_chart() {
        Ok(c) => c,
        Err(e) => return Err(e),
    };
    if chart.rows() > usize::MAX - 2 || chart.cols() > usize::MAX - 2 {
        return Err(CallError::ChartTooBig);
    }
    Ok(Value::Chart(chart.pad('.')))
}

proof fn lemma_first_named_in_range(ps: Seq<(Seq<char>, RuntimeModel)>, name: Seq<char>, k: int)
    ensures
        first_named(ps, name, k) matches Some(i) ==> 0 <= i < ps.len(),
    decreases ps.len() - k,
{
    if 0 <= k < ps.len() && ps[k].0 != name {
        lemma_first_named_in_range(ps, name, k + 1);
    }
}

} // verus!
