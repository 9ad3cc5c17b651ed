//! The tree-walking evaluator: executes a parsed `Program` statement by
//! statement against a mutable binding environment.
//!
//! Evaluation is specified by `spec_eval` over node models and an environment
//! model (a map from identifier name to value); the executable evaluator is
//! proved to follow it exactly, typed errors included. Arithmetic is checked:
//! overflow and underflow are reported as `NumericOverflow`, never wrapped
//! and never a panic.

use vstd::prelude::*;
use std::rc::Rc;
use crate::ast::{Node, NodeModel, Program, child_model, elem_model};

verus! {

broadcast use vstd::std_specs::vec::group_vec_axioms;

/// A value produced by evaluating an expression.
#[derive(Debug, Clone, PartialEq, Eq)]
pub enum RuntimeValue {
    /// An unsigned 64-bit integer.
    Number(u64),
    /// A piece of text.
    Str(String),
    /// The value of a variable declared without an initialiser.
    Undefined,
}

/// The mathematical value of a `RuntimeValue`.
pub enum ValueModel {
    Number(u64),
    Str(Seq<char>),
    Undefined,
}

impl View for RuntimeValue {
    type V = ValueModel;

    open spec fn view(&self) -> ValueModel {
        match self {
            RuntimeValue::Number(n) => ValueModel::Number(*n),
            RuntimeValue::Str(s) => ValueModel::Str(s@),
            RuntimeValue::Undefined => ValueModel::Undefined,
        }
    }
}

impl RuntimeValue {
    /// A copy with the same model.
    pub fn duplicate(&self) -> (v: RuntimeValue)
        ensures
            v@ == self@,
    {
        match self {
            RuntimeValue::Number(n) => RuntimeValue::Number(*n),
            RuntimeValue::Str(s) => RuntimeValue::Str(s.clone()),
            RuntimeValue::Undefined => RuntimeValue::Undefined,
        }
    }
}

/// Why evaluation failed. Every failure is reported as a value; no condition
/// below ever panics.
#[derive(Debug, Clone, Copy, PartialEq, Eq, Structural)]
pub enum RuntimeError {
    /// An identifier was read that no binding exists for.
    UnboundIdentifier,
    /// An operator was applied to values of incompatible kinds.
    TypeMismatch,
    /// A parsed node shape with no evaluation rule yet.
    UnsupportedConstruct,
    /// Checked arithmetic left the 64-bit unsigned range.
    NumericOverflow,
}

/// The environment model: at most one binding per name.
pub type EnvModel = Map<Seq<char>, ValueModel>;

/// The model of a binding list: later entries win.
pub open spec fn pairs_model(s: Seq<(String, RuntimeValue)>) -> EnvModel
    decreases s.len(),
{
    if s.len() == 0 {
        Map::empty()
    } else {
        pairs_model(s.drop_last()).insert(s.last().0@, s.last().1@)
    }
}

/// No two entries bind the same name.
pub open spec fn distinct_keys(s: Seq<(String, RuntimeValue)>) -> bool {
    forall|i: int, j: int| 0 <= i < j < s.len() ==> s[i].0@ != s[j].0@
}

proof fn lemma_distinct_drop_last(s: Seq<(String, RuntimeValue)>)
    requires
        distinct_keys(s),
        s.len() > 0,
    ensures
        distinct_keys(s.drop_last()),
{
    assert forall|i: int, j: int|
        0 <= i < j < s.drop_last().len() implies s.drop_last()[i].0@ != s.drop_last()[j].0@ by {
        assert(s.drop_last()[i] == s[i]);
        assert(s.drop_last()[j] == s[j]);
    }
}

/// With distinct keys, the map holds exactly the listed bindings.
proof fn lemma_pairs_model_get(s: Seq<(String, RuntimeValue)>)
    requires
        distinct_keys(s),
    ensures
        forall|k: Seq<char>|
            #[trigger] pairs_model(s).contains_key(k) ==> exists|i: int|
                0 <= i < s.len() && s[i].0@ == k,
        forall|i: int|
            0 <= i < s.len() ==> pairs_model(s).contains_key(#[trigger] s[i].0@) && pairs_model(
                s,
            )[s[i].0@] == s[i].1@,
    decreases s.len(),
{
    if s.len() > 0 {
        lemma_distinct_drop_last(s);
        lemma_pairs_model_get(s.drop_last());
        assert forall|k: Seq<char>| #[trigger]
            pairs_model(s).contains_key(k) implies exists|i: int|
            0 <= i < s.len() && s[i].0@ == k by {
            if k == s.last().0@ {
                assert(s[s.len() - 1].0@ == k);
            } else {
                assert(pairs_model(s.drop_last()).contains_key(k));
                let i = choose|i: int| 0 <= i < s.drop_last().len() && s.drop_last()[i].0@ == k;
                assert(s[i].0@ == k);
            }
        }
        assert forall|i: int| 0 <= i < s.len() implies pairs_model(s).contains_key(
            #[trigger] s[i].0@,
        ) && pairs_model(s)[s[i].0@] == s[i].1@ by {
            if i == s.len() - 1 {
            } else {
                assert(s.drop_last()[i] == s[i]);
                assert(s[i].0@ != s.last().0@);
            }
        }
    }
}

/// Replacing the entry that holds a name is inserting into the model.
proof fn lemma_pairs_model_update(s: Seq<(String, RuntimeValue)>, i: int, p: (String, RuntimeValue))
    requires
        distinct_keys(s),
        0 <= i < s.len(),
        p.0@ == s[i].0@,
    ensures
        pairs_model(s.update(i, p)) == pairs_model(s).insert(p.0@, p.1@),
    decreases s.len(),
{
    let t = s.update(i, p);
    if i == s.len() - 1 {
        assert(t.drop_last() =~= s.drop_last());
        assert(t.last() == p);
        assert(pairs_model(s.drop_last()).insert(s.last().0@, s.last().1@).insert(p.0@, p.1@)
            =~= pairs_model(s.drop_last()).insert(p.0@, p.1@));
    } else {
        lemma_distinct_drop_last(s);
        assert(s.drop_last()[i] == s[i]);
        lemma_pairs_model_update(s.drop_last(), i, p);
        assert(t.drop_last() =~= s.drop_last().update(i, p));
        assert(t.last() == s.last());
        assert(s[i].0@ != s.last().0@);
        assert(pairs_model(s.drop_last()).insert(p.0@, p.1@).insert(s.last().0@, s.last().1@)
            =~= pairs_model(s.drop_last()).insert(s.last().0@, s.last().1@).insert(p.0@, p.1@));
    }
}

/// Appending a fresh binding is inserting into the model.
proof fn lemma_pairs_model_push(s: Seq<(String, RuntimeValue)>, p: (String, RuntimeValue))
    ensures
        pairs_model(s.push(p)) == pairs_model(s).insert(p.0@, p.1@),
{
    assert(s.push(p).drop_last() =~= s);
    assert(s.push(p).last() == p);
}

/// The binding store for one execution: a name maps to at most one value,
/// and an assignment or redeclaration replaces the old value (last write
/// wins).
#[derive(Debug)]
pub struct Environment {
    bindings: Vec<(String, RuntimeValue)>,
}

impl View for Environment {
    type V = EnvModel;

    closed spec fn view(&self) -> EnvModel {
        pairs_model(self.bindings@)
    }
}

impl Environment {
    /// One entry per name.
    pub closed spec fn wf(&self) -> bool {
        distinct_keys(self.bindings@)
    }

    pub fn new() -> (r: Environment)
        ensures
            r.wf(),
            r@ == Map::<Seq<char>, ValueModel>::empty(),
    {
        Environment { bindings: Vec::new() }
    }

    /// Look a name up; `None` when it is unbound.
    pub fn get(&self, name: &String) -> (r: Option<RuntimeValue>)
        requires
            self.wf(),
        ensures
            match r {
                Some(v) => self@.contains_key(name@) && v@ == self@[name@],
                None => !self@.contains_key(name@),
            },
    {
        proof {
            lemma_pairs_model_get(self.bindings@);
        }
        let mut i: usize = 0;
        while i < self.bindings.len()
            invariant
                i <= self.bindings@.len(),
                self.wf(),
                forall|j: int| 0 <= j < i ==> self.bindings@[j].0@ != name@,
            decreases self.bindings@.len() - i,
        {
            if self.bindings[i].0 == *name {
                proof {
                    lemma_pairs_model_get(self.bindings@);
                }
                return Some(self.bindings[i].1.duplicate());
            }
            i = i + 1;
        }
        proof {
            lemma_pairs_model_get(self.bindings@);
        }
        None
    }

    /// Bind a name: replace its value if bound, append it if not.
    pub fn update(&mut self, name: String, value: RuntimeValue)
        requires
            old(self).wf(),
        ensures
            final(self).wf(),
            final(self)@ == old(self)@.insert(name@, value@),
    {
        let ghost s0 = self.bindings@;
        let mut i: usize = 0;
        while i < self.bindings.len()
            invariant
                i <= self.bindings@.len(),
                self.bindings@ == s0,
                s0 == old(self).bindings@,
                distinct_keys(s0),
                forall|j: int| 0 <= j < i ==> self.bindings@[j].0@ != name@,
            decreases self.bindings@.len() - i,
        {
            if self.bindings[i].0 == name {
                proof {
                    lemma_pairs_model_update(s0, i as int, (name, value));
                }
                self.bindings[i] = (name, value);
                proof {
                    assert forall|a: int, b: int|
                        0 <= a < b < self.bindings@.len() implies self.bindings@[a].0@
                        != self.bindings@[b].0@ by {
                        assert(s0[a].0@ != s0[b].0@);
                    }
                }
                return ;
            }
            i = i + 1;
        }
        proof {
            lemma_pairs_model_push(s0, (name, value));
        }
        self.bindings.push((name, value));
        proof {
            assert forall|a: int, b: int|
                0 <= a < b < self.bindings@.len() implies self.bindings@[a].0@
                != self.bindings@[b].0@ by {
                if b < self.bindings@.len() - 1 {
                    assert(s0[a].0@ != s0[b].0@);
                }
            }
        }
    }
}

/// How an evaluation step's executable result relates to its specified one:
/// the same typed error, or the same optional value.
pub open spec fn eval_result_matches(
    r: Result<Option<RuntimeValue>, RuntimeError>,
    s: Result<Option<ValueModel>, RuntimeError>,
) -> bool {
    match (r, s) {
        (Ok(a), Ok(b)) => opt_value_model(a) == b,
        (Err(e1), Err(e2)) => e1 == e2,
        _ => false,
    }
}

/// The model of an optional runtime value.
pub open spec fn opt_value_model(o: Option<RuntimeValue>) -> Option<ValueModel> {
    match o {
        Some(v) => Some(v@),
        None => None,
    }
}

/// What `+` or `-` yields on two values: defined only between two numbers,
/// checked against the 64-bit unsigned range; every other pairing is a
/// `TypeMismatch`, and an operator that is neither `+` nor `-` has no rule.
pub open spec fn spec_apply_additive(op: char, l: ValueModel, r: ValueModel) -> Result<
    Option<ValueModel>,
    RuntimeError,
> {
    if op == '+' {
        match (l, r) {
            (ValueModel::Number(a), ValueModel::Number(b)) => if a + b <= u64::MAX {
                Ok(Some(ValueModel::Number((a + b) as u64)))
            } else {
                Err(RuntimeError::NumericOverflow)
            },
            _ => Err(RuntimeError::TypeMismatch),
        }
    } else if op == '-' {
        match (l, r) {
            (ValueModel::Number(a), ValueModel::Number(b)) => if a >= b {
                Ok(Some(ValueModel::Number((a - b) as u64)))
            } else {
                Err(RuntimeError::NumericOverflow)
            },
            _ => Err(RuntimeError::TypeMismatch),
        }
    } else {
        Err(RuntimeError::UnsupportedConstruct)
    }
}

/// Evaluating an optional child: an absent operand evaluates to nothing,
/// which the surrounding expression propagates.
pub open spec fn spec_eval_opt(node: Option<Box<NodeModel>>, env: EnvModel) -> (Result<
    Option<ValueModel>,
    RuntimeError,
>, EnvModel)
    decreases node,
{
    match node {
        None => (Ok(None), env),
        Some(b) => spec_eval(*b, env),
    }
}

/// The evaluation rules, one per node shape; the pair carries the
/// environment out because assignments and declarations change it, also on
/// the path to a failure.
pub open spec fn spec_eval(n: NodeModel, env: EnvModel) -> (Result<
    Option<ValueModel>,
    RuntimeError,
>, EnvModel)
    decreases n,
{
    match n {
        NodeModel::ExpressionStatement(e) => spec_eval_opt(e, env),
        NodeModel::AdditiveExpression { operator, left, right } => {
            let (lr, env1) = spec_eval_opt(left, env);
            match lr {
                Err(e) => (Err(e), env1),
                Ok(None) => (Ok(None), env1),
                Ok(Some(lv)) => {
                    let (rr, env2) = spec_eval_opt(right, env1);
                    match rr {
                        Err(e) => (Err(e), env2),
                        Ok(None) => (Ok(None), env2),
                        Ok(Some(rv)) => (spec_apply_additive(operator, lv, rv), env2),
                    }
                },
            }
        },
        NodeModel::AssignmentExpression { operator, left, right } => {
            if operator != '=' {
                (Err(RuntimeError::UnsupportedConstruct), env)
            } else {
                let (rr, env1) = spec_eval_opt(right, env);
                match rr {
                    Err(e) => (Err(e), env1),
                    Ok(None) => (Ok(None), env1),
                    Ok(Some(v)) => match left {
                        Some(b) => match *b {
                            NodeModel::Identifier(name) => (Ok(Some(v)), env1.insert(name, v)),
                            _ => (Err(RuntimeError::UnsupportedConstruct), env1),
                        },
                        None => (Err(RuntimeError::UnsupportedConstruct), env1),
                    },
                }
            }
        },
        NodeModel::MemberExpression { object: _, property: _ } => (
            Err(RuntimeError::UnsupportedConstruct),
            env,
        ),
        NodeModel::NumericLiteral(v) => (Ok(Some(ValueModel::Number(v))), env),
        NodeModel::VariableDeclaration { declarations } => spec_eval_decls(declarations, env),
        NodeModel::VariableDeclarator { id: _, init: _ } => (
            Err(RuntimeError::UnsupportedConstruct),
            env,
        ),
        NodeModel::Identifier(name) => if env.contains_key(name) {
            (Ok(Some(env[name])), env)
        } else {
            (Err(RuntimeError::UnboundIdentifier), env)
        },
        NodeModel::StringLiteral(v) => (Ok(Some(ValueModel::Str(v))), env),
    }
}

/// A declaration list binds its declarators in order and yields no value.
pub open spec fn spec_eval_decls(ds: Seq<Option<NodeModel>>, env: EnvModel) -> (Result<
    Option<ValueModel>,
    RuntimeError,
>, EnvModel)
    decreases ds,
{
    if ds.len() == 0 {
        (Ok(None), env)
    } else {
        let (r, env1) = spec_eval_decl(ds[0], env);
        match r {
            Err(e) => (Err(e), env1),
            Ok(_) => spec_eval_decls(ds.drop_first(), env1),
        }
    }
}

/// One declarator: bind the identifier to its initialiser's value, or to
/// `Undefined` when the initialiser is absent or yields nothing.
pub open spec fn spec_eval_decl(d: Option<NodeModel>, env: EnvModel) -> (Result<
    Option<ValueModel>,
    RuntimeError,
>, EnvModel)
    decreases d,
{
    match d {
        None => (Err(RuntimeError::UnsupportedConstruct), env),
        Some(node) => match node {
            NodeModel::VariableDeclarator { id, init } => match id {
                Some(idb) => match *idb {
                    NodeModel::Identifier(name) => {
                        let (r, env1) = spec_eval_opt(init, env);
                        match r {
                            Err(e) => (Err(e), env1),
                            Ok(None) => (Ok(None), env1.insert(name, ValueModel::Undefined)),
                            Ok(Some(v)) => (Ok(None), env1.insert(name, v)),
                        }
                    },
                    _ => (Err(RuntimeError::UnsupportedConstruct), env),
                },
                None => (Err(RuntimeError::UnsupportedConstruct), env),
            },
            _ => (Err(RuntimeError::UnsupportedConstruct), env),
        },
    }
}

/// Executing a statement list: each statement in order, fail-fast on the
/// first error, collecting the value each statement yields.
pub open spec fn spec_execute(body: Seq<NodeModel>, env: EnvModel) -> (Result<
    Seq<Option<ValueModel>>,
    RuntimeError,
>, EnvModel)
    decreases body.len(),
{
    if body.len() == 0 {
        (Ok(Seq::empty()), env)
    } else {
        let (r, env1) = spec_eval(body[0], env);
        match r {
            Err(e) => (Err(e), env1),
            Ok(v) => {
                let (rest, env2) = spec_execute(body.drop_first(), env1);
                match rest {
                    Err(e) => (Err(e), env2),
                    Ok(vs) => (Ok(seq![v] + vs), env2),
                }
            },
        }
    }
}

/// The model of a collected result list.
pub open spec fn results_model(s: Seq<Option<RuntimeValue>>) -> Seq<Option<ValueModel>> {
    s.map_values(|o: Option<RuntimeValue>| opt_value_model(o))
}

/// Values already produced, prepended to however the rest of the program
/// executes.
pub open spec fn prepend_values(
    done: Seq<Option<ValueModel>>,
    o: (Result<Seq<Option<ValueModel>>, RuntimeError>, EnvModel),
) -> (Result<Seq<Option<ValueModel>>, RuntimeError>, EnvModel) {
    (
        match o.0 {
            Ok(vs) => Ok(done + vs),
            Err(e) => Err(e),
        },
        o.1,
    )
}

fn apply_additive(op: char, l: RuntimeValue, r: RuntimeValue) -> (res: Result<
    Option<RuntimeValue>,
    RuntimeError,
>)
    ensures
        eval_result_matches(res, spec_apply_additive(op, l@, r@)),
{
    if op == '+' {
        match (l, r) {
            (RuntimeValue::Number(a), RuntimeValue::Number(b)) => match a.checked_add(b) {
                Some(c) => Ok(Some(RuntimeValue::Number(c))),
                None => Err(RuntimeError::NumericOverflow),
            },
            _ => Err(RuntimeError::TypeMismatch),
        }
    } else if op == '-' {
        match (l, r) {
            (RuntimeValue::Number(a), RuntimeValue::Number(b)) => match a.checked_sub(b) {
                Some(c) => Ok(Some(RuntimeValue::Number(c))),
                None => Err(RuntimeError::NumericOverflow),
            },
            _ => Err(RuntimeError::TypeMismatch),
        }
    } else {
        Err(RuntimeError::UnsupportedConstruct)
    }
}

/// The evaluator: owns the environment of one execution and walks the tree
/// against it.
#[derive(Debug)]
pub struct JsRuntime {
    env: Environment,
}

impl JsRuntime {
    pub closed spec fn wf(&self) -> bool {
        self.env.wf()
    }

    /// The bindings the runtime currently holds.
    pub closed spec fn env_model(&self) -> EnvModel {
        self.env@
    }

    /// A fresh runtime with an empty environment.
    pub fn new() -> (r: JsRuntime)
        ensures
            r.wf(),
            r.env_model() == Map::<Seq<char>, ValueModel>::empty(),
    {
        JsRuntime { env: Environment::new() }
    }

    /// Evaluate one optional node reference against the current environment.
    pub fn eval(&mut self, node: &Option<Rc<Node>>) -> (r: Result<
        Option<RuntimeValue>,
        RuntimeError,
    >)
        requires
            old(self).wf(),
        ensures
            final(self).wf(),
            ({
                let (res, envp) = spec_eval_opt(child_model(*node), old(self).env_model());
                final(self).env_model() == envp && eval_result_matches(r, res)
            }),
        decreases *node, 1int,
    {
        match node {
            None => Ok(None),
            Some(rc) => self.eval_node(rc),
        }
    }

    fn eval_node(&mut self, node: &Rc<Node>) -> (r: Result<Option<RuntimeValue>, RuntimeError>)
        requires
            old(self).wf(),
        ensures
            final(self).wf(),
            ({
                let (res, envp) = spec_eval(node@, old(self).env_model());
                final(self).env_model() == envp && eval_result_matches(r, res)
            }),
        decreases *node, 0int,
    {
        match &**node {
            Node::ExpressionStatement(expr) => {
                return self.eval(expr);
            },
            Node::AdditiveExpression { operator, left, right } => {
                let lr = match self.eval(left) {
                    Ok(v) => v,
                    Err(e) => {
                        return Err(e);
                    },
                };
                let lv = match lr {
                    Some(v) => v,
                    None => {
                        return Ok(None);
                    },
                };
                let rr = match self.eval(right) {
                    Ok(v) => v,
                    Err(e) => {
                        return Err(e);
                    },
                };
                let rv = match rr {
                    Some(v) => v,
                    None => {
                        return Ok(None);
                    },
                };
                return apply_additive(*operator, lv, rv);
            },
            Node::AssignmentExpression { operator, left, right } => {
                if *operator != '=' {
                    return Err(RuntimeError::UnsupportedConstruct);
                }
                let rr = match self.eval(right) {
                    Ok(v) => v,
                    Err(e) => {
                        return Err(e);
                    },
                };
                let v = match rr {
                    Some(v) => v,
                    None => {
                        return Ok(None);
                    },
                };
                match left {
                    Some(l) => match &**l {
                        Node::Identifier(name) => {
                            proof {
                                assert(child_model(*left) matches Some(b) && *b
                                    == NodeModel::Identifier(name@));
                            }
                            self.env.update(name.clone(), v.duplicate());
                            return Ok(Some(v));
                        },
                        _ => {
                            proof {
                                assert(child_model(*left) matches Some(b) && !(*b is Identifier));
                            }
                            return Err(RuntimeError::UnsupportedConstruct);
                        },
                    },
                    None => {
                        return Err(RuntimeError::UnsupportedConstruct);
                    },
                }
            },
            Node::MemberExpression { object: _, property: _ } => {
                return Err(RuntimeError::UnsupportedConstruct);
            },
            Node::NumericLiteral(v) => {
                return Ok(Some(RuntimeValue::Number(*v)));
            },
            Node::VariableDeclaration { declarations } => {
                return self.eval_declarations(declarations);
            },
            Node::VariableDeclarator { id: _, init: _ } => {
                return Err(RuntimeError::UnsupportedConstruct);
            },
            Node::Identifier(name) => {
                match self.env.get(name) {
                    Some(v) => {
                        return Ok(Some(v));
                    },
                    None => {
                        return Err(RuntimeError::UnboundIdentifier);
                    },
                }
            },
            Node::StringLiteral(v) => {
                return Ok(Some(RuntimeValue::Str(v.clone())));
            },
        }
    }

    fn eval_declarations(&mut self, declarations: &Vec<Option<Rc<Node>>>) -> (r: Result<
        Option<RuntimeValue>,
        RuntimeError,
    >)
        requires
            old(self).wf(),
        ensures
            final(self).wf(),
            ({
                let (res, envp) = spec_eval_decls(
                    crate::ast::decls_model(declarations@),
                    old(self).env_model(),
                );
                final(self).env_model() == envp && eval_result_matches(r, res)
            }),
        decreases declarations@, 0int,
    {
        let ghost dm = crate::ast::decls_model(declarations@);
        proof {
            lemma_decls_model_len(declarations@);
            assert(dm.skip(0) =~= dm);
        }
        let mut i: usize = 0;
        while i < declarations.len()
            invariant
                old(self).wf(),
                self.wf(),
                i <= declarations@.len(),
                dm == crate::ast::decls_model(declarations@),
                dm.len() == declarations@.len(),
                spec_eval_decls(dm, old(self).env_model()) == spec_eval_decls(
                    dm.skip(i as int),
                    self.env_model(),
                ),
            decreases declarations@.len() - i,
        {
            let ghost env_i = self.env_model();
            proof {
                lemma_decls_model_index(declarations@, i as int);
                assert(dm.skip(i as int)[0] == dm[i as int]);
                assert(dm.skip(i as int).drop_first() =~= dm.skip(i as int + 1));
                assert(spec_eval_decls(dm.skip(i as int), env_i) == ({
                    let (r0, env1) = spec_eval_decl(dm[i as int], env_i);
                    match r0 {
                        Err(e) => (Err::<Option<ValueModel>, RuntimeError>(e), env1),
                        Ok(_) => spec_eval_decls(dm.skip(i as int + 1), env1),
                    }
                }));
            }
            let d = &declarations[i];
            match d {
                None => {
                    proof {
                        assert(dm[i as int] == Option::<NodeModel>::None);
                    }
                    return Err(RuntimeError::UnsupportedConstruct);
                },
                Some(dn) => match &**dn {
                    Node::VariableDeclarator { id, init } => match id {
                        Some(idrc) => match &**idrc {
                            Node::Identifier(name) => {
                                proof {
                                    assert(dm[i as int] matches Some(nm)
                                        && nm == NodeModel::VariableDeclarator {
                                        id: child_model(*id),
                                        init: child_model(*init),
                                    });
                                }
                                let rr = match self.eval(init) {
                                    Ok(v) => v,
                                    Err(e) => {
                                        proof {
                                            assert(spec_eval_decl(dm[i as int], env_i)
                                                == (Err::<Option<ValueModel>, RuntimeError>(e), self.env_model()));
                                        }
                                        return Err(e);
                                    },
                                };
                                let value = match rr {
                                    Some(v) => v,
                                    None => RuntimeValue::Undefined,
                                };
                                self.env.update(name.clone(), value);
                            },
                            _ => {
                                return Err(RuntimeError::UnsupportedConstruct);
                            },
                        },
                        None => {
                            return Err(RuntimeError::UnsupportedConstruct);
                        },
                    },
                    _ => {
                        return Err(RuntimeError::UnsupportedConstruct);
                    },
                },
            }
            i = i + 1;
        }
        proof {
            assert(dm.skip(i as int) =~= Seq::<Option<NodeModel>>::empty());
        }
        Ok(None)
    }

    /// Execute a program: a fresh, empty environment, then each statement in
    /// source order, fail-fast on the first error. On success the values the
    /// statements yielded are returned in order.
    pub fn execute(&mut self, program: &Program) -> (r: Result<
        Vec<Option<RuntimeValue>>,
        RuntimeError,
    >)
        ensures
            final(self).wf(),
            ({
                let (res, envp) = spec_execute(program@, Map::empty());
                final(self).env_model() == envp && match (r, res) {
                    (Ok(vs), Ok(ms)) => results_model(vs@) == ms,
                    (Err(e1), Err(e2)) => e1 == e2,
                    _ => false,
                }
            }),
    {
        self.env = Environment::new();
        let mut results: Vec<Option<RuntimeValue>> = Vec::new();
        let body = program.body();
        let ghost bm = program@;
        proof {
            assert(results_model(results@) =~= Seq::<Option<ValueModel>>::empty());
            assert(bm.skip(0) =~= bm);
            match spec_execute(bm, Map::<Seq<char>, ValueModel>::empty()) {
                (Ok(vs), _) => {
                    assert(results_model(results@) + vs =~= vs);
                },
                _ => {},
            }
        }
        let mut i: usize = 0;
        while i < body.len()
            invariant
                self.wf(),
                i <= body@.len(),
                bm == program@,
                bm == crate::ast::body_model(body@),
                spec_execute(bm, Map::<Seq<char>, ValueModel>::empty()) == prepend_values(
                    results_model(results@),
                    spec_execute(bm.skip(i as int), self.env_model()),
                ),
            decreases body@.len() - i,
        {
            let ghost done = results_model(results@);
            let ghost env_i = self.env_model();
            proof {
                assert(bm.skip(i as int)[0] == bm[i as int]);
                assert(bm[i as int] == body@[i as int]@);
                assert(bm.skip(i as int).drop_first() =~= bm.skip(i as int + 1));
                assert(spec_execute(bm.skip(i as int), env_i) == ({
                    let (r0, env1) = spec_eval(bm[i as int], env_i);
                    match r0 {
                        Err(e) => (Err::<Seq<Option<ValueModel>>, RuntimeError>(e), env1),
                        Ok(v0) => {
                            let (rest, env2) = spec_execute(bm.skip(i as int + 1), env1);
                            match rest {
                                Err(e) => (Err::<Seq<Option<ValueModel>>, RuntimeError>(e), env2),
                                Ok(vs) => (Ok::<Seq<Option<ValueModel>>, RuntimeError>(
                                    seq![v0] + vs,
                                ), env2),
                            }
                        },
                    }
                }));
            }
            let v = match self.eval_node(&body[i]) {
                Ok(v) => v,
                Err(e) => {
                    return Err(e);
                },
            };
            results.push(v);
            proof {
                assert(results_model(results@) =~= done + seq![opt_value_model(v)]);
                match spec_execute(bm.skip(i as int + 1), self.env_model()) {
                    (Ok(vs), _) => {
                        assert((done + seq![opt_value_model(v)]) + vs =~= done + (seq![
                            opt_value_model(v),
                        ] + vs));
                    },
                    _ => {},
                }
            }
            i = i + 1;
        }
        proof {
            assert(bm.skip(i as int) =~= Seq::<NodeModel>::empty());
            assert(results_model(results@) + Seq::<Option<ValueModel>>::empty() =~= results_model(
                results@,
            ));
        }
        Ok(results)
    }
}

/// For every additive expression of two numeric literals and every
/// environment, evaluation yields the checked arithmetic result — the sum or
/// difference when it lies in the 64-bit unsigned range, the
/// `NumericOverflow` error when it does not — and leaves the environment
/// unchanged; no input crashes it.
pub proof fn lemma_additive_of_literals(op: char, a: u64, b: u64, env: EnvModel)
    requires
        op == '+' || op == '-',
    ensures
        ({
            let n = NodeModel::AdditiveExpression {
                operator: op,
                left: Some(Box::new(NodeModel::NumericLiteral(a))),
                right: Some(Box::new(NodeModel::NumericLiteral(b))),
            };
            let (r, envp) = spec_eval(n, env);
            envp == env && r == (if op == '+' {
                if a + b <= u64::MAX {
                    Ok::<Option<ValueModel>, RuntimeError>(Some(ValueModel::Number((a + b) as u64)))
                } else {
                    Err::<Option<ValueModel>, RuntimeError>(RuntimeError::NumericOverflow)
                }
            } else {
                if a >= b {
                    Ok::<Option<ValueModel>, RuntimeError>(Some(ValueModel::Number((a - b) as u64)))
                } else {
                    Err::<Option<ValueModel>, RuntimeError>(RuntimeError::NumericOverflow)
                }
            })
        }),
{
    let lft = NodeModel::NumericLiteral(a);
    let rgt = NodeModel::NumericLiteral(b);
    assert(spec_eval(lft, env) == (
        Ok::<Option<ValueModel>, RuntimeError>(Some(ValueModel::Number(a))),
        env,
    ));
    assert(spec_eval(rgt, env) == (
        Ok::<Option<ValueModel>, RuntimeError>(Some(ValueModel::Number(b))),
        env,
    ));
    assert(spec_eval_opt(Some(Box::new(lft)), env) == (
        Ok::<Option<ValueModel>, RuntimeError>(Some(ValueModel::Number(a))),
        env,
    ));
    assert(spec_eval_opt(Some(Box::new(rgt)), env) == (
        Ok::<Option<ValueModel>, RuntimeError>(Some(ValueModel::Number(b))),
        env,
    ));
    let n = NodeModel::AdditiveExpression {
        operator: op,
        left: Some(Box::new(lft)),
        right: Some(Box::new(rgt)),
    };
    assert(spec_eval(n, env) == (
        spec_apply_additive(op, ValueModel::Number(a), ValueModel::Number(b)),
        env,
    ));
}

/// Referencing an identifier that the environment does not bind is the
/// `UnboundIdentifier` error — not a silent nothing — and changes nothing.
pub proof fn lemma_unbound_identifier(name: Seq<char>, env: EnvModel)
    requires
        !env.contains_key(name),
    ensures
        spec_eval(NodeModel::Identifier(name), env) == (
            Err::<Option<ValueModel>, RuntimeError>(RuntimeError::UnboundIdentifier),
            env,
        ),
{
}

/// Evaluating a member expression, whose semantics are reserved, is the
/// `UnsupportedConstruct` error — not a silent nothing — and changes nothing.
pub proof fn lemma_member_expression_unsupported(
    object: Option<Box<NodeModel>>,
    property: Option<Box<NodeModel>>,
    env: EnvModel,
)
    ensures
        spec_eval(NodeModel::MemberExpression { object, property }, env) == (
            Err::<Option<ValueModel>, RuntimeError>(RuntimeError::UnsupportedConstruct),
            env,
        ),
{
}

/// Assigning to a left-hand side that is not an identifier is the
/// `UnsupportedConstruct` error, whatever value the right-hand side produced.
pub proof fn lemma_assign_non_identifier(lhs: NodeModel, rhs: Option<Box<NodeModel>>, env: EnvModel)
    requires
        !(lhs is Identifier),
        spec_eval_opt(rhs, env).0 matches Ok(v) && v is Some,
    ensures
        ({
            let n = NodeModel::AssignmentExpression {
                operator: '=',
                left: Some(Box::new(lhs)),
                right: rhs,
            };
            spec_eval(n, env) == (
                Err::<Option<ValueModel>, RuntimeError>(RuntimeError::UnsupportedConstruct),
                spec_eval_opt(rhs, env).1,
            )
        }),
{
}

/// `decls_model` keeps the list's length.
pub proof fn lemma_decls_model_len(ds: Seq<Option<Rc<Node>>>)
    ensures
        crate::ast::decls_model(ds).len() == ds.len(),
    decreases ds.len(),
{
    if ds.len() > 0 {
        lemma_decls_model_len(ds.drop_first());
    }
}

/// `decls_model` is element-wise.
pub proof fn lemma_decls_model_index(ds: Seq<Option<Rc<Node>>>, i: int)
    requires
        0 <= i < ds.len(),
    ensures
        crate::ast::decls_model(ds).len() == ds.len(),
        crate::ast::decls_model(ds)[i] == elem_model(ds[i]),
    decreases i,
{
    lemma_decls_model_len(ds);
    if i > 0 {
        lemma_decls_model_index(ds.drop_first(), i - 1);
        assert(ds.drop_first()[i - 1] == ds[i]);
        lemma_decls_model_len(ds.drop_first());
    }
}

} // verus!
