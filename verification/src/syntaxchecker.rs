//! Alias and register tracking: the per-function analysis state that
//! turns named variables into indexed storage locations.
//!
//! A [`Variable`] is the logical identity of one storage location and
//! carries the names that currently alias it: `exteriors` address the
//! variable as a whole, `interiors` address into its substructure.
//! Variable records live in an arena owned by the [`SyntaxContext`];
//! each in-scope name is bound to a [`Reference`] holding the arena
//! index of its variable, its interiority, and its register.
//!
//! The context's well-formedness invariant [`SyntaxContext::wf`] pins
//! the alias discipline down: bound names are distinct, two distinct
//! names share a register exactly when both are exterior aliases of the
//! same variable, free registers are distinct and disjoint from the
//! live ones, and the alias sets of the arena list exactly the live
//! names bound to each variable.  Every operation requires and
//! preserves it.

use vstd::prelude::*;
use crate::values::{Value, Val, val_views, val_wf, vals_wf, lemma_vals_wf_elem, lemma_vals_wf_push, value_eq, rat_clone, rat_wf};
use crate::parsetree as PT;
use crate::syntaxtree as ST;

verus! {

broadcast use vstd::seq::axiom_seq_index_decreases, vstd::std_specs::vec::axiom_vec_index_decreases;

/// The logical identity of a storage location: the sets of names that
/// currently alias it, as a whole (`exteriors`) or into its
/// substructure (`interiors`).
pub struct Variable {
    pub exteriors: Vec<String>,
    pub interiors: Vec<String>,
}

/// A named, in-scope binding: its interiority, the register it
/// occupies, and the arena index of the variable it aliases.
#[derive(Clone, Copy, PartialEq, Eq, Structural, Debug)]
pub struct Reference {
    pub is_interior: bool,
    pub register: usize,
    pub var: usize,
}

/// The failure taxonomy of the analysis pass.  Every violation is
/// fatal to the compilation; each carries the name (and where useful
/// the register) needed for a source-level diagnostic.
#[derive(Debug)]
pub enum SyntaxError {
    /// A name was used that is not currently bound.
    UndefinedVariable { name: String },
    /// A name was declared that is already bound.
    DuplicateDeclaration { name: String },
    /// A variable was destroyed while other aliases remain live.
    AliasedDestroy { name: String, register: usize },
    /// An alias was retired against the wrong variable or through an
    /// incompatible alias path.
    InvalidUnref { name: String, register: usize },
    /// Every register index is taken: a machine limit, not a semantic
    /// violation of the source program.
    RegisterLimit { name: String },
}

/// No two of the names are the same.
pub open spec fn names_distinct(s: Seq<String>) -> bool {
    forall|i: int, j: int| 0 <= i < j < s.len() ==> s[i]@ != s[j]@
}

/// Whether the name occurs in the list.
pub open spec fn has_name(s: Seq<String>, n: Seq<char>) -> bool {
    exists|i: int| 0 <= i < s.len() && s[i]@ == n
}

/// No two entries bind the same name.
pub open spec fn entries_distinct(es: Seq<(String, Reference)>) -> bool {
    forall|i: int, j: int| 0 <= i < j < es.len() ==> es[i].0@ != es[j].0@
}

/// Whether the name is currently bound.
pub open spec fn is_bound(es: Seq<(String, Reference)>, n: Seq<char>) -> bool {
    exists|i: int| 0 <= i < es.len() && es[i].0@ == n
}

/// The index of the entry binding the name (unique when the entries
/// are distinct).
pub open spec fn index_of(es: Seq<(String, Reference)>, n: Seq<char>) -> int {
    choose|i: int| 0 <= i < es.len() && es[i].0@ == n
}

/// The reference bound to the name.
pub open spec fn the_ref(es: Seq<(String, Reference)>, n: Seq<char>) -> Reference {
    es[index_of(es, n)].1
}

/// The name is bound to the given variable with the given interiority.
pub open spec fn bound_to(es: Seq<(String, Reference)>, n: Seq<char>, v: int, interior: bool) -> bool {
    exists|i: int|
        0 <= i < es.len() && es[i].0@ == n && es[i].1.var == v && es[i].1.is_interior == interior
}

/// How a register is obtained: the most recently freed one is reused,
/// else a fresh index is minted and the high-water mark grows.
pub open spec fn fresh_register(
    pre_free: Seq<usize>,
    pre_num: usize,
    post_free: Seq<usize>,
    post_num: usize,
    reg: usize,
) -> bool {
    if pre_free.len() > 0 {
        reg == pre_free.last() && post_free == pre_free.drop_last() && post_num == pre_num
    } else {
        reg == pre_num && post_free == pre_free && post_num == pre_num + 1
    }
}

/// The list `post` is `pre` with the first occurrence of the name
/// removed, or unchanged when the name does not occur.
pub open spec fn seq_name_removed(pre: Seq<String>, post: Seq<String>, n: Seq<char>) -> bool {
    if has_name(pre, n) {
        exists|k: int| 0 <= k < pre.len() && pre[k]@ == n && post == #[trigger] pre.remove(k)
    } else {
        post == pre
    }
}

/// Per-function analysis state: the live name table, the variable
/// arena, the free-register pool, the register high-water mark, the
/// deduplicated constant pool, and the module's function-name table.
pub struct SyntaxContext {
    pub func_names: Vec<String>,
    pub consts: Vec<Value>,
    pub free_registers: Vec<usize>,
    pub local_variables: Vec<(String, Reference)>,
    pub variables: Vec<Variable>,
    pub num_registers: usize,
}

impl SyntaxContext {
    /// The aliasing discipline: see the module description.
    pub open spec fn wf(self) -> bool {
        let es = self.local_variables@;
        let vs = self.variables@;
        let fr = self.free_registers@;
        &&& entries_distinct(es)
        &&& (forall|i: int| 0 <= i < es.len() ==> (#[trigger] es[i].1).var < vs.len())
        &&& (forall|i: int| 0 <= i < es.len() ==> (#[trigger] es[i].1).register < self.num_registers)
        &&& (forall|i: int| 0 <= i < fr.len() ==> #[trigger] fr[i] < self.num_registers)
        &&& (forall|i: int, j: int| 0 <= i < j < fr.len() ==> fr[i] != fr[j])
        &&& (forall|i: int, j: int|
            #![trigger fr[i], es[j].1]
            0 <= i < fr.len() && 0 <= j < es.len() ==> fr[i] != es[j].1.register)
        &&& (forall|i: int, j: int|
            0 <= i < es.len() && 0 <= j < es.len() && i != j && (#[trigger] es[i].1).register == (
            #[trigger] es[j].1).register ==> es[i].1.var == es[j].1.var && !es[i].1.is_interior
                && !es[j].1.is_interior)
        &&& (forall|i: int|
            0 <= i < es.len() ==> {
                let e = #[trigger] es[i];
                if e.1.is_interior {
                    has_name(vs[e.1.var as int].interiors@, e.0@)
                } else {
                    has_name(vs[e.1.var as int].exteriors@, e.0@)
                }
            })
        &&& (forall|v: int, k: int|
            #![trigger vs[v].exteriors@[k]]
            0 <= v < vs.len() && 0 <= k < vs[v].exteriors@.len() ==> bound_to(
                es,
                vs[v].exteriors@[k]@,
                v,
                false,
            ))
        &&& (forall|v: int, k: int|
            #![trigger vs[v].interiors@[k]]
            0 <= v < vs.len() && 0 <= k < vs[v].interiors@.len() ==> bound_to(
                es,
                vs[v].interiors@[k]@,
                v,
                true,
            ))
        &&& (forall|v: int|
            0 <= v < vs.len() ==> names_distinct((#[trigger] vs[v]).exteriors@) && names_distinct(
                vs[v].interiors@,
            ))
        &&& vals_wf(val_views(self.consts@))
    }
}

/// Relies on `str::to_owned` and `String`'s `PartialEq`: equality of a
/// stored name and a borrowed one, by contents.
fn str_eq(a: &String, b: &str) -> (r: bool)
    ensures
        r == (a@ == b@),
{
    let owned: String = b.to_owned();
    a.eq(&owned)
}

impl Reference {
    /// Bind a fresh variable record in the arena whose sole exterior
    /// alias is `name`, and return the reference to it.
    pub fn new(name: String, register: usize, is_interior: bool, variables: &mut Vec<Variable>) -> (r: Reference)
        ensures
            final(variables)@.len() == old(variables)@.len() + 1,
            final(variables)@.drop_last() == old(variables)@,
            final(variables)@.last().exteriors@ =~= seq![name],
            final(variables)@.last().interiors@.len() == 0,
            r.is_interior == is_interior,
            r.register == register,
            r.var == old(variables)@.len(),
    {
        let var = variables.len();
        let mut exteriors: Vec<String> = Vec::new();
        exteriors.push(name);
        variables.push(Variable { exteriors, interiors: Vec::new() });
        Reference { is_interior, register, var }
    }
}

impl SyntaxContext {
    /// Start an empty context scoped to one function, carrying the
    /// module's function-name table for call resolution.
    pub fn new(func_names: &Vec<String>) -> (r: SyntaxContext)
        ensures
            r.wf(),
            r.local_variables@.len() == 0,
            r.variables@.len() == 0,
            r.free_registers@.len() == 0,
            r.num_registers == 0,
            r.consts@.len() == 0,
            r.func_names@.len() == func_names@.len(),
            forall|i: int| 0 <= i < func_names@.len() ==> r.func_names@[i]@ == func_names@[i]@,
    {
        let mut names: Vec<String> = Vec::new();
        let n = func_names.len();
        let mut i: usize = 0;
        while i < n
            invariant
                n == func_names@.len(),
                0 <= i <= n,
                names@.len() == i,
                forall|k: int| 0 <= k < i ==> names@[k]@ == func_names@[k]@,
            decreases n - i,
        {
            let c = func_names[i].clone();
            names.push(c);
            i += 1;
        }
        SyntaxContext {
            func_names: names,
            consts: Vec::new(),
            free_registers: Vec::new(),
            local_variables: Vec::new(),
            variables: Vec::new(),
            num_registers: 0,
        }
    }

    /// The index of the entry binding `name`, if any.
    fn find_entry(&self, name: &str) -> (r: Option<usize>)
        requires
            self.wf(),
        ensures
            match r {
                Some(i) => i < self.local_variables@.len() && self.local_variables@[i as int].0@
                    == name@ && i == index_of(self.local_variables@, name@),
                None => !is_bound(self.local_variables@, name@),
            },
    {
        let n = self.local_variables.len();
        let mut i: usize = 0;
        while i < n
            invariant
                self.wf(),
                n == self.local_variables@.len(),
                0 <= i <= n,
                forall|k: int| 0 <= k < i ==> self.local_variables@[k].0@ != name@,
            decreases n - i,
        {
            if str_eq(&self.local_variables[i].0, name) {
                proof {
                    let es = self.local_variables@;
                    assert(es[i as int].0@ == name@);
                    let j = index_of(es, name@);
                    assert(0 <= j < es.len() && es[j].0@ == name@);
                    assert(j == i as int);
                }
                return Some(i);
            }
            i += 1;
        }
        None
    }

    /// Resolve a name to its register; `UndefinedVariable` if unbound.
    pub fn lookup_local(&self, name: &str) -> (r: Result<usize, SyntaxError>)
        requires
            self.wf(),
        ensures
            match r {
                Ok(reg) => is_bound(self.local_variables@, name@) && reg == the_ref(
                    self.local_variables@,
                    name@,
                ).register,
                Err(e) => !is_bound(self.local_variables@, name@) && (e matches
                    SyntaxError::UndefinedVariable { name: n } && n@ == name@),
            },
    {
        match self.find_entry(name) {
            Some(i) => Ok(self.local_variables[i].1.register),
            None => Err(SyntaxError::UndefinedVariable { name: name.to_owned() }),
        }
    }

    /// Take a register from the free pool, or mint a fresh index.
    pub fn get_free_register(&mut self) -> (reg: usize)
        requires
            old(self).wf(),
            old(self).num_registers < usize::MAX,
        ensures
            final(self).wf(),
            fresh_register(
                old(self).free_registers@,
                old(self).num_registers,
                final(self).free_registers@,
                final(self).num_registers,
                reg,
            ),
            reg < final(self).num_registers,
            old(self).num_registers <= final(self).num_registers,
            final(self).local_variables == old(self).local_variables,
            final(self).variables == old(self).variables,
            final(self).consts == old(self).consts,
            final(self).func_names == old(self).func_names,
            !is_free(final(self).free_registers@, reg),
            forall|j: int|
                0 <= j < final(self).local_variables@.len() ==> (#[trigger] final(self).local_variables@[j].1).register != reg,
    {
        match self.free_registers.pop() {
            Some(r) => r,
            None => {
                let r = self.num_registers;
                self.num_registers = self.num_registers + 1;
                r
            },
        }
    }

    /// Deduplicating insertion into the constant pool: the index of a
    /// structurally equal existing entry, else the index of `val`
    /// freshly appended.
    pub fn add_const(&mut self, val: Value) -> (idx: usize)
        requires
            old(self).wf(),
            val_wf(val@),
        ensures
            final(self).wf(),
            added_const(val_views(old(self).consts@), val@, val_views(final(self).consts@), idx as int),
            final(self).local_variables == old(self).local_variables,
            final(self).variables == old(self).variables,
            final(self).free_registers == old(self).free_registers,
            final(self).num_registers == old(self).num_registers,
            final(self).func_names == old(self).func_names,
    {
        let n = self.consts.len();
        let mut i: usize = 0;
        while i < n
            invariant
                *self == *old(self),
                self.wf(),
                val_wf(val@),
                n == self.consts@.len(),
                0 <= i <= n,
                forall|k: int| 0 <= k < i ==> val_views(self.consts@)[k] != val@,
            decreases n - i,
        {
            proof {
                lemma_vals_wf_elem(val_views(self.consts@), i as int);
            }
            if value_eq(&self.consts[i], &val) {
                proof {
                    assert(val_views(self.consts@)[i as int] == val@);
                }
                return i;
            }
            i += 1;
        }
        proof {
            lemma_vals_wf_push(val_views(self.consts@), val@);
        }
        self.consts.push(val);
        proof {
            assert(val_views(final(self).consts@) =~= val_views(old(self).consts@).push(val@));
        }
        n
    }
}

/// Whether a register is in the free pool.
pub open spec fn is_free(fr: Seq<usize>, reg: usize) -> bool {
    exists|i: int| 0 <= i < fr.len() && fr[i] == reg
}

/// The contract of constant-pool insertion: when a structurally equal
/// entry exists the pool is unchanged and the index is the first such
/// entry's; otherwise the value is appended and its index returned.
pub open spec fn added_const(pre: Seq<Val>, v: Val, post: Seq<Val>, idx: int) -> bool {
    &&& 0 <= idx < post.len()
    &&& post[idx] == v
    &&& (forall|k: int| 0 <= k < idx ==> post[k] != v)
    &&& if has_const(pre, v) {
        post == pre
    } else {
        post == pre.push(v) && idx == pre.len()
    }
}

/// Whether the pool holds an entry equal to the value.
pub open spec fn has_const(pre: Seq<Val>, v: Val) -> bool {
    exists|k: int| 0 <= k < pre.len() && pre[k] == v
}


/// The successful effect of `create_variable`: a register is taken
/// from the pool or minted, and `name` is bound as the sole exterior
/// alias of a fresh variable record.
pub open spec fn created_variable(pre: SyntaxContext, post: SyntaxContext, name: Seq<char>, reg: usize) -> bool {
    &&& created_variable_binding(pre, post, name, reg)
    &&& post.consts == pre.consts
    &&& post.func_names == pre.func_names
}

/// The binding-table part of `create_variable`'s effect: everything
/// but the constant pool, which later expression lowering may extend.
pub open spec fn created_variable_binding(pre: SyntaxContext, post: SyntaxContext, name: Seq<char>, reg: usize) -> bool {
    &&& fresh_register(pre.free_registers@, pre.num_registers, post.free_registers@, post.num_registers, reg)
    &&& post.local_variables@.len() == pre.local_variables@.len() + 1
    &&& post.local_variables@.drop_last() == pre.local_variables@
    &&& post.local_variables@.last().0@ == name
    &&& post.local_variables@.last().1.is_interior == false
    &&& post.local_variables@.last().1.register == reg
    &&& post.local_variables@.last().1.var == pre.variables@.len()
    &&& post.variables@.len() == pre.variables@.len() + 1
    &&& post.variables@.drop_last() == pre.variables@
    &&& post.variables@.last().exteriors@.len() == 1
    &&& post.variables@.last().exteriors@[0]@ == name
    &&& post.variables@.last().interiors@.len() == 0
}

/// The successful effect of `remove_variable`: the binding is gone,
/// its register is back in the pool, and the variable record is left
/// with no aliases.
pub open spec fn removed_variable(pre: SyntaxContext, post: SyntaxContext, name: Seq<char>, reg: usize) -> bool {
    &&& removed_variable_binding(pre, post, name, reg)
    &&& post.consts == pre.consts
    &&& post.func_names == pre.func_names
}

/// The binding-table part of `remove_variable`'s effect.
pub open spec fn removed_variable_binding(pre: SyntaxContext, post: SyntaxContext, name: Seq<char>, reg: usize) -> bool {
    let i = index_of(pre.local_variables@, name);
    let rf = the_ref(pre.local_variables@, name);
    &&& reg == rf.register
    &&& post.local_variables@ == pre.local_variables@.remove(i)
    &&& post.free_registers@ == pre.free_registers@.push(reg)
    &&& post.num_registers == pre.num_registers
    &&& post.variables@.len() == pre.variables@.len()
    &&& (forall|w: int|
        0 <= w < pre.variables@.len() && w != rf.var ==> post.variables@[w] == pre.variables@[w])
    &&& post.variables@[rf.var as int].exteriors@.len() == 0
    &&& post.variables@[rf.var as int].interiors@.len() == 0
}

impl SyntaxContext {
    /// Bind `name` to a fresh variable; `DuplicateDeclaration` if the
    /// name is already bound.  The register is reused from the pool if
    /// one is free, else freshly minted.
    pub fn create_variable(&mut self, name: &str) -> (r: Result<usize, SyntaxError>)
        requires
            old(self).wf(),
            old(self).num_registers < usize::MAX,
        ensures
            final(self).wf(),
            match r {
                Ok(reg) => !is_bound(old(self).local_variables@, name@) && created_variable(
                    *old(self),
                    *final(self),
                    name@,
                    reg,
                ),
                Err(e) => is_bound(old(self).local_variables@, name@) && *final(self) == *old(self)
                    && (e matches SyntaxError::DuplicateDeclaration { name: n } && n@ == name@),
            },
    {
        if self.find_entry(name).is_some() {
            return Err(SyntaxError::DuplicateDeclaration { name: name.to_owned() });
        }
        let reg = self.get_free_register();
        let ghost mid = *self;
        let rf = Reference::new(name.to_owned(), reg, false, &mut self.variables);
        self.local_variables.push((name.to_owned(), rf));
        proof {
            assert(self.local_variables@.drop_last() =~= old(self).local_variables@);
            assert(self.local_variables@ =~= old(self).local_variables@.push(
                self.local_variables@.last(),
            ));
            lemma_wf_after_create_variable(*old(self), mid, *self, name@, reg);
        }
        Ok(reg)
    }

    /// Destroy the variable bound to `name`, releasing its register to
    /// the pool.  `UndefinedVariable` if unbound; `AliasedDestroy` if
    /// the variable still has an interior alias or an exterior alias
    /// other than `name` itself.
    pub fn remove_variable(&mut self, name: &str) -> (r: Result<usize, SyntaxError>)
        requires
            old(self).wf(),
        ensures
            final(self).wf(),
            match r {
                Ok(reg) => {
                    let rf = the_ref(old(self).local_variables@, name@);
                    &&& is_bound(old(self).local_variables@, name@)
                    &&& old(self).variables@[rf.var as int].interiors@.len() == 0
                    &&& old(self).variables@[rf.var as int].exteriors@.len() <= 1
                    &&& removed_variable(*old(self), *final(self), name@, reg)
                },
                Err(e) => *final(self) == *old(self) && match e {
                    SyntaxError::UndefinedVariable { name: n } => n@ == name@ && !is_bound(
                        old(self).local_variables@,
                        name@,
                    ),
                    SyntaxError::AliasedDestroy { name: n, register } => {
                        let rf = the_ref(old(self).local_variables@, name@);
                        &&& n@ == name@
                        &&& is_bound(old(self).local_variables@, name@)
                        &&& register == rf.register
                        &&& (old(self).variables@[rf.var as int].interiors@.len() > 0 || old(
                            self,
                        ).variables@[rf.var as int].exteriors@.len() > 1)
                    },
                    _ => false,
                },
            },
    {
        let i = match self.find_entry(name) {
            Some(i) => i,
            None => {
                return Err(SyntaxError::UndefinedVariable { name: name.to_owned() });
            },
        };
        let rf = self.local_variables[i].1;
        if self.variables[rf.var].interiors.len() > 0 || self.variables[rf.var].exteriors.len() > 1 {
            return Err(SyntaxError::AliasedDestroy { name: name.to_owned(), register: rf.register });
        }
        let _ = self.local_variables.remove(i);
        clear_exteriors(&mut self.variables, rf.var);
        self.free_registers.push(rf.register);
        proof {
            old(self).local_variables@.remove_ensures(i as int);
            lemma_wf_after_remove_variable(*old(self), *self, name@, i as int, rf);
        }
        Ok(rf.register)
    }
}

/// Empty the exterior-alias list of one arena record.
fn clear_exteriors(variables: &mut Vec<Variable>, v: usize)
    requires
        v < old(variables)@.len(),
    ensures
        final(variables)@.len() == old(variables)@.len(),
        forall|w: int|
            0 <= w < old(variables)@.len() && w != v ==> final(variables)@[w] == old(variables)@[w],
        final(variables)@[v as int].exteriors@.len() == 0,
        final(variables)@[v as int].interiors == old(variables)@[v as int].interiors,
{
    let vr = &mut variables[v];
    vr.exteriors.clear();
}

/// Binding a fresh name to a fresh variable record preserves the
/// aliasing discipline.
proof fn lemma_wf_after_create_variable(
    pre: SyntaxContext,
    mid: SyntaxContext,
    post: SyntaxContext,
    name: Seq<char>,
    reg: usize,
)
    requires
        post.consts == pre.consts,
        pre.wf(),
        !is_bound(pre.local_variables@, name),
        // the register allocation step
        fresh_register(pre.free_registers@, pre.num_registers, mid.free_registers@, mid.num_registers, reg),
        mid.local_variables == pre.local_variables,
        mid.variables == pre.variables,
        !is_free(mid.free_registers@, reg),
        reg < mid.num_registers,
        pre.num_registers <= mid.num_registers,
        forall|j: int|
            0 <= j < mid.local_variables@.len() ==> (#[trigger] mid.local_variables@[j].1).register != reg,
        // the binding step
        post.free_registers == mid.free_registers,
        post.num_registers == mid.num_registers,
        post.variables@.len() == pre.variables@.len() + 1,
        post.variables@.drop_last() == pre.variables@,
        post.variables@.last().exteriors@.len() == 1,
        post.variables@.last().exteriors@[0]@ == name,
        post.variables@.last().interiors@.len() == 0,
        post.local_variables@ == pre.local_variables@.push(post.local_variables@.last()),
        post.local_variables@.last().0@ == name,
        post.local_variables@.last().1.is_interior == false,
        post.local_variables@.last().1.register == reg,
        post.local_variables@.last().1.var == pre.variables@.len(),
    ensures
        post.wf(),
{
    let es0 = pre.local_variables@;
    let es = post.local_variables@;
    let vs0 = pre.variables@;
    let vs = post.variables@;
    let nv = vs0.len() as int;
    assert(es.len() == es0.len() + 1);
    assert(forall|i: int| 0 <= i < es0.len() ==> es[i] == es0[i]);
    assert(forall|w: int| 0 <= w < vs0.len() ==> vs[w] == vs0[w]);
    assert forall|i: int, j: int| 0 <= i < j < es.len() implies es[i].0@ != es[j].0@ by {
        if j < es.len() - 1 {
            assert(es[i] == es0[i] && es[j] == es0[j]);
        } else {
            assert(es[j].0@ == name);
            if es[i].0@ == name {
                assert(is_bound(es0, name));
            }
        }
    }
    assert forall|i: int, j: int|
        0 <= i < es.len() && 0 <= j < es.len() && i != j && (#[trigger] es[i].1).register == (
        #[trigger] es[j].1).register implies es[i].1.var == es[j].1.var && !es[i].1.is_interior
        && !es[j].1.is_interior by {
        if i < es.len() - 1 && j < es.len() - 1 {
            assert(es[i] == es0[i] && es[j] == es0[j]);
        } else if i == es.len() - 1 {
            assert(es[j].1.register != reg);
        } else {
            assert(es[i].1.register != reg);
        }
    }
    assert forall|i: int| 0 <= i < es.len() implies {
        let e = #[trigger] es[i];
        if e.1.is_interior {
            has_name(vs[e.1.var as int].interiors@, e.0@)
        } else {
            has_name(vs[e.1.var as int].exteriors@, e.0@)
        }
    } by {
        if i < es.len() - 1 {
            assert(es[i] == es0[i]);
            assert(es[i].1.var < vs0.len());
            assert(vs[es[i].1.var as int] == vs0[es[i].1.var as int]);
        } else {
            assert(es[i].1.var == nv);
            assert(vs[nv].exteriors@[0]@ == name);
            assert(has_name(vs[nv].exteriors@, name));
        }
    }
    assert forall|v: int, k: int|
        #![trigger vs[v].exteriors@[k]]
        0 <= v < vs.len() && 0 <= k < vs[v].exteriors@.len() implies bound_to(
        es,
        vs[v].exteriors@[k]@,
        v,
        false,
    ) by {
        if v < nv {
            assert(vs[v] == vs0[v]);
            assert(bound_to(es0, vs0[v].exteriors@[k]@, v, false));
            let w = choose|i: int|
                0 <= i < es0.len() && es0[i].0@ == vs0[v].exteriors@[k]@ && es0[i].1.var == v
                    && es0[i].1.is_interior == false;
            assert(es[w] == es0[w]);
        } else {
            assert(k == 0 && vs[v].exteriors@[k]@ == name);
            assert(es.last().0@ == name && es.last().1.var == v && !es.last().1.is_interior);
        }
    }
    assert forall|v: int, k: int|
        #![trigger vs[v].interiors@[k]]
        0 <= v < vs.len() && 0 <= k < vs[v].interiors@.len() implies bound_to(
        es,
        vs[v].interiors@[k]@,
        v,
        true,
    ) by {
        if v < nv {
            assert(vs[v] == vs0[v]);
            assert(bound_to(es0, vs0[v].interiors@[k]@, v, true));
            let w = choose|i: int|
                0 <= i < es0.len() && es0[i].0@ == vs0[v].interiors@[k]@ && es0[i].1.var == v
                    && es0[i].1.is_interior == true;
            assert(es[w] == es0[w]);
        }
    }
    assert forall|v: int|
        0 <= v < vs.len() implies names_distinct((#[trigger] vs[v]).exteriors@) && names_distinct(
        vs[v].interiors@,
    ) by {
        if v < nv {
            assert(vs[v] == vs0[v]);
        }
    }
}

/// Destroying a sole-exterior, no-interior binding preserves the
/// aliasing discipline: no other name can be using its register.
proof fn lemma_wf_after_remove_variable(
    pre: SyntaxContext,
    post: SyntaxContext,
    name: Seq<char>,
    i: int,
    rf: Reference,
)
    requires
        post.consts == pre.consts,
        pre.wf(),
        0 <= i < pre.local_variables@.len(),
        pre.local_variables@[i].0@ == name,
        pre.local_variables@[i].1 == rf,
        pre.variables@[rf.var as int].interiors@.len() == 0,
        pre.variables@[rf.var as int].exteriors@.len() <= 1,
        post.local_variables@ == pre.local_variables@.remove(i),
        post.free_registers@ == pre.free_registers@.push(rf.register),
        post.num_registers == pre.num_registers,
        post.variables@.len() == pre.variables@.len(),
        forall|w: int|
            0 <= w < pre.variables@.len() && w != rf.var ==> post.variables@[w] == pre.variables@[w],
        post.variables@[rf.var as int].exteriors@.len() == 0,
        post.variables@[rf.var as int].interiors@.len() == 0,
    ensures
        post.wf(),
{
    let es0 = pre.local_variables@;
    let es = post.local_variables@;
    let vs0 = pre.variables@;
    let vs = post.variables@;
    let fr0 = pre.free_registers@;
    let fr = post.free_registers@;
    es0.remove_ensures(i);
    assert(es.len() == es0.len() - 1);
    // every surviving entry is an old entry at a shifted index
    assert forall|k: int| 0 <= k < es.len() implies #[trigger] es[k] == es0[if k < i {
        k
    } else {
        k + 1
    }] by {}
    // no other entry uses rf's register: it would have to be an
    // exterior alias of the same variable, but name is the only one
    assert forall|k: int| 0 <= k < es0.len() && k != i implies (#[trigger] es0[k].1).register
        != rf.register by {
        if es0[k].1.register == rf.register {
            assert(es0[k].1.var == rf.var && !es0[k].1.is_interior && !rf.is_interior);
            assert(has_name(vs0[rf.var as int].exteriors@, es0[k].0@));
            assert(has_name(vs0[rf.var as int].exteriors@, name));
            let a = choose|x: int|
                0 <= x < vs0[rf.var as int].exteriors@.len() && vs0[rf.var as int].exteriors@[x]@
                    == es0[k].0@;
            let b = choose|x: int|
                0 <= x < vs0[rf.var as int].exteriors@.len() && vs0[rf.var as int].exteriors@[x]@
                    == name;
            assert(vs0[rf.var as int].exteriors@.len() <= 1);
            assert(a == 0 && b == 0);
            assert(es0[k].0@ == name);
            assert(es0[k].0@ != es0[i].0@);
        }
    }
    assert forall|x: int, j: int|
        #![trigger fr[x], es[j].1]
        0 <= x < fr.len() && 0 <= j < es.len() implies fr[x] != es[j].1.register by {
        if x < fr0.len() {
            assert(fr[x] == fr0[x]);
        } else {
            assert(fr[x] == rf.register);
        }
    }
    assert forall|x: int, y: int| 0 <= x < y < fr.len() implies fr[x] != fr[y] by {
        if y == fr.len() - 1 {
            assert(fr[y] == rf.register);
            assert(fr0[x] != es0[i].1.register);
        }
    }
    assert forall|k: int| 0 <= k < es.len() implies {
        let e = #[trigger] es[k];
        if e.1.is_interior {
            has_name(vs[e.1.var as int].interiors@, e.0@)
        } else {
            has_name(vs[e.1.var as int].exteriors@, e.0@)
        }
    } by {
        let k0: int = if k < i { k } else { k + 1 };
        assert(es[k] == es0[k0]);
        if es0[k0].1.var != rf.var {
            assert(vs[es0[k0].1.var as int] == vs0[es0[k0].1.var as int]);
        } else {
            // the variable had no interiors and name as sole exterior,
            // so no other entry can point at it
            if es0[k0].1.is_interior {
                assert(has_name(vs0[rf.var as int].interiors@, es0[k0].0@));
            } else {
                assert(has_name(vs0[rf.var as int].exteriors@, es0[k0].0@));
                let a = choose|x: int|
                    0 <= x < vs0[rf.var as int].exteriors@.len() && vs0[rf.var as int].exteriors@[x]@
                        == es0[k0].0@;
                assert(vs0[rf.var as int].exteriors@[0]@ == name);
                assert(es0[k0].0@ == name);
                assert(es0[k0].0@ != es0[i].0@);
            }
        }
    }
    assert forall|v: int, k: int|
        #![trigger vs[v].exteriors@[k]]
        0 <= v < vs.len() && 0 <= k < vs[v].exteriors@.len() implies bound_to(
        es,
        vs[v].exteriors@[k]@,
        v,
        false,
    ) by {
        assert(v != rf.var);
        assert(vs[v] == vs0[v]);
        assert(bound_to(es0, vs0[v].exteriors@[k]@, v, false));
        let w = choose|x: int|
            0 <= x < es0.len() && es0[x].0@ == vs0[v].exteriors@[k]@ && es0[x].1.var == v
                && es0[x].1.is_interior == false;
        assert(w != i);
        let w2: int = if w < i { w } else { w - 1 };
        assert(es[w2] == es0[w]);
    }
    assert forall|v: int, k: int|
        #![trigger vs[v].interiors@[k]]
        0 <= v < vs.len() && 0 <= k < vs[v].interiors@.len() implies bound_to(
        es,
        vs[v].interiors@[k]@,
        v,
        true,
    ) by {
        assert(v != rf.var);
        assert(vs[v] == vs0[v]);
        assert(bound_to(es0, vs0[v].interiors@[k]@, v, true));
        let w = choose|x: int|
            0 <= x < es0.len() && es0[x].0@ == vs0[v].interiors@[k]@ && es0[x].1.var == v
                && es0[x].1.is_interior == true;
        assert(w != i);
        let w2: int = if w < i { w } else { w - 1 };
        assert(es[w2] == es0[w]);
    }
    assert forall|v: int|
        0 <= v < vs.len() implies names_distinct((#[trigger] vs[v]).exteriors@) && names_distinct(
        vs[v].interiors@,
    ) by {
        if v != rf.var {
            assert(vs[v] == vs0[v]);
        }
    }
}


/// The successful effect of `create_ref`: the alias's interiority is
/// the source's, or forced interior by a non-empty index path.  An
/// interior alias gets a register of its own and joins the variable's
/// interior set; an exterior alias shares the source's register and
/// joins the exterior set.
pub open spec fn created_ref(
    pre: SyntaxContext,
    post: SyntaxContext,
    name: Seq<char>,
    target: Seq<char>,
    has_path: bool,
    reg: usize,
) -> bool {
    &&& created_ref_binding(pre, post, name, target, has_path, reg)
    &&& post.consts == pre.consts
    &&& post.func_names == pre.func_names
}

/// The binding-table part of `create_ref`'s effect: everything but
/// the constant pool, which later expression lowering may extend.
pub open spec fn created_ref_binding(
    pre: SyntaxContext,
    post: SyntaxContext,
    name: Seq<char>,
    target: Seq<char>,
    has_path: bool,
    reg: usize,
) -> bool {
    let src = the_ref(pre.local_variables@, target);
    let sv = src.var as int;
    let interior = src.is_interior || has_path;
    &&& post.local_variables@.len() == pre.local_variables@.len() + 1
    &&& post.local_variables@.drop_last() == pre.local_variables@
    &&& post.local_variables@.last().0@ == name
    &&& post.local_variables@.last().1.is_interior == interior
    &&& post.local_variables@.last().1.register == reg
    &&& post.local_variables@.last().1.var == src.var
    &&& post.variables@.len() == pre.variables@.len()
    &&& (forall|w: int|
        0 <= w < pre.variables@.len() && w != sv ==> post.variables@[w] == pre.variables@[w])
    &&& (if interior {
        &&& fresh_register(pre.free_registers@, pre.num_registers, post.free_registers@, post.num_registers, reg)
        &&& post.variables@[sv].exteriors == pre.variables@[sv].exteriors
        &&& post.variables@[sv].interiors@.len() == pre.variables@[sv].interiors@.len() + 1
        &&& post.variables@[sv].interiors@.drop_last() == pre.variables@[sv].interiors@
        &&& post.variables@[sv].interiors@.last()@ == name
    } else {
        &&& reg == src.register
        &&& post.free_registers == pre.free_registers
        &&& post.num_registers == pre.num_registers
        &&& post.variables@[sv].interiors == pre.variables@[sv].interiors
        &&& post.variables@[sv].exteriors@.len() == pre.variables@[sv].exteriors@.len() + 1
        &&& post.variables@[sv].exteriors@.drop_last() == pre.variables@[sv].exteriors@
        &&& post.variables@[sv].exteriors@.last()@ == name
    })
}

/// The validity condition of `remove_ref`: the retired alias and the
/// named target resolve to the same variable, and an interior-only
/// target is not used to retire a non-interior alias.
pub open spec fn unref_ok(pre: SyntaxContext, name: Seq<char>, target: Seq<char>, has_path: bool) -> bool {
    let rf = the_ref(pre.local_variables@, name);
    let other = the_ref(pre.local_variables@, target);
    let interior = rf.is_interior || has_path;
    &&& rf.var == other.var
    &&& !(other.is_interior && !interior)
}

/// The successful effect of `remove_ref`: the binding is gone and the
/// name is removed from both alias sets of its variable.  The register
/// is returned but not freed: the caller decides whether to free it.
pub open spec fn removed_ref(
    pre: SyntaxContext,
    post: SyntaxContext,
    name: Seq<char>,
    reg: usize,
) -> bool {
    &&& removed_ref_core(pre, post, name, reg)
    &&& post.free_registers == pre.free_registers
    &&& post.consts == pre.consts
    &&& post.func_names == pre.func_names
}

/// The binding-table and alias-set part of `remove_ref`'s effect:
/// everything but the free pool and the constant pool.
pub open spec fn removed_ref_core(
    pre: SyntaxContext,
    post: SyntaxContext,
    name: Seq<char>,
    reg: usize,
) -> bool {
    let i = index_of(pre.local_variables@, name);
    let rf = the_ref(pre.local_variables@, name);
    let sv = rf.var as int;
    &&& reg == rf.register
    &&& post.local_variables@ == pre.local_variables@.remove(i)
    &&& post.num_registers == pre.num_registers
    &&& post.variables@.len() == pre.variables@.len()
    &&& (forall|w: int|
        0 <= w < pre.variables@.len() && w != sv ==> post.variables@[w] == pre.variables@[w])
    &&& seq_name_removed(pre.variables@[sv].exteriors@, post.variables@[sv].exteriors@, name)
    &&& seq_name_removed(pre.variables@[sv].interiors@, post.variables@[sv].interiors@, name)
    &&& !has_name(post.variables@[sv].exteriors@, name)
    &&& !has_name(post.variables@[sv].interiors@, name)
    &&& post.func_names == pre.func_names
}

/// Append an alias name to one arena record's interior or exterior set.
fn push_alias(variables: &mut Vec<Variable>, v: usize, name: String, interior: bool)
    requires
        v < old(variables)@.len(),
    ensures
        final(variables)@.len() == old(variables)@.len(),
        forall|w: int|
            0 <= w < old(variables)@.len() && w != v ==> final(variables)@[w] == old(variables)@[w],
        if interior {
            final(variables)@[v as int].exteriors == old(variables)@[v as int].exteriors
                && final(variables)@[v as int].interiors@ == old(variables)@[v as int].interiors@.push(name)
        } else {
            final(variables)@[v as int].interiors == old(variables)@[v as int].interiors
                && final(variables)@[v as int].exteriors@ == old(variables)@[v as int].exteriors@.push(name)
        },
{
    let vr = &mut variables[v];
    if interior {
        vr.interiors.push(name);
    } else {
        vr.exteriors.push(name);
    }
}

/// Remove the first occurrence of a name from a list of names.
fn remove_name(names: &mut Vec<String>, name: &str)
    ensures
        seq_name_removed(old(names)@, final(names)@, name@),
        names_distinct(old(names)@) ==> names_distinct(final(names)@) && !has_name(
            final(names)@,
            name@,
        ),
        forall|n: Seq<char>|
            n != name@ ==> #[trigger] has_name(final(names)@, n) == has_name(old(names)@, n),
{
    let len = names.len();
    let mut i: usize = 0;
    while i < len
        invariant
            *names == *old(names),
            len == names@.len(),
            0 <= i <= len,
            forall|k: int| 0 <= k < i ==> names@[k]@ != name@,
        decreases len - i,
    {
        if str_eq(&names[i], name) {
            let _ = names.remove(i);
            proof {
                let pre = old(names)@;
                let post = names@;
                pre.remove_ensures(i as int);
                assert(pre[i as int]@ == name@);
                assert(has_name(pre, name@));
                assert(seq_name_removed(pre, post, name@));
                if names_distinct(pre) {
                    assert forall|a: int, b: int| 0 <= a < b < post.len() implies post[a]@
                        != post[b]@ by {
                        let a0: int = if a < i { a } else { a + 1 };
                        let b0: int = if b < i { b } else { b + 1 };
                        assert(post[a] == pre[a0] && post[b] == pre[b0]);
                    }
                    assert forall|k: int| 0 <= k < post.len() implies post[k]@ != name@ by {
                        let k0: int = if k < i { k } else { k + 1 };
                        assert(post[k] == pre[k0]);
                        if post[k]@ == name@ {
                            assert(pre[k0]@ == pre[i as int]@);
                        }
                    }
                }
                assert forall|n: Seq<char>| n != name@ implies #[trigger] has_name(post, n)
                    == has_name(pre, n) by {
                    if has_name(pre, n) {
                        let w = choose|x: int| 0 <= x < pre.len() && pre[x]@ == n;
                        assert(w != i);
                        let w2: int = if w < i { w } else { w - 1 };
                        assert(post[w2] == pre[w]);
                    }
                    if has_name(post, n) {
                        let w = choose|x: int| 0 <= x < post.len() && post[x]@ == n;
                        let w0: int = if w < i { w } else { w + 1 };
                        assert(post[w] == pre[w0]);
                    }
                }
            }
            return;
        }
        i += 1;
    }
    proof {
        assert(!has_name(names@, name@));
    }
}

/// Remove an alias name from both alias sets of one arena record;
/// removal is idempotent against the set the name is not in.
fn remove_alias(variables: &mut Vec<Variable>, v: usize, name: &str)
    requires
        v < old(variables)@.len(),
    ensures
        final(variables)@.len() == old(variables)@.len(),
        forall|w: int|
            0 <= w < old(variables)@.len() && w != v ==> final(variables)@[w] == old(variables)@[w],
        seq_name_removed(
            old(variables)@[v as int].exteriors@,
            final(variables)@[v as int].exteriors@,
            name@,
        ),
        seq_name_removed(
            old(variables)@[v as int].interiors@,
            final(variables)@[v as int].interiors@,
            name@,
        ),
        names_distinct(old(variables)@[v as int].exteriors@) ==> names_distinct(
            final(variables)@[v as int].exteriors@,
        ) && !has_name(final(variables)@[v as int].exteriors@, name@),
        names_distinct(old(variables)@[v as int].interiors@) ==> names_distinct(
            final(variables)@[v as int].interiors@,
        ) && !has_name(final(variables)@[v as int].interiors@, name@),
        forall|n: Seq<char>|
            n != name@ ==> #[trigger] has_name(final(variables)@[v as int].exteriors@, n)
                == has_name(old(variables)@[v as int].exteriors@, n),
        forall|n: Seq<char>|
            n != name@ ==> #[trigger] has_name(final(variables)@[v as int].interiors@, n)
                == has_name(old(variables)@[v as int].interiors@, n),
{
    let vr = &mut variables[v];
    remove_name(&mut vr.interiors, name);
    remove_name(&mut vr.exteriors, name);
}


impl SyntaxContext {
    /// Introduce `name` as an alias of the variable that
    /// `lookup.name` resolves to.  The alias is interior when the
    /// source is interior or the lookup carries a non-empty index
    /// path; an interior alias is given a distinct register, an
    /// exterior alias reuses the source's.
    pub fn create_ref(&mut self, name: &str, lookup: &PT::LookupNode) -> (r: Result<usize, SyntaxError>)
        requires
            old(self).wf(),
            old(self).num_registers < usize::MAX,
        ensures
            final(self).wf(),
            match r {
                Ok(reg) => !is_bound(old(self).local_variables@, name@) && is_bound(
                    old(self).local_variables@,
                    lookup.name@,
                ) && created_ref(
                    *old(self),
                    *final(self),
                    name@,
                    lookup.name@,
                    lookup.indices@.len() > 0,
                    reg,
                ),
                Err(e) => *final(self) == *old(self) && match e {
                    SyntaxError::DuplicateDeclaration { name: n } => n@ == name@ && is_bound(
                        old(self).local_variables@,
                        name@,
                    ),
                    SyntaxError::UndefinedVariable { name: n } => n@ == lookup.name@ && !is_bound(
                        old(self).local_variables@,
                        name@,
                    ) && !is_bound(old(self).local_variables@, lookup.name@),
                    _ => false,
                },
            },
    {
        if self.find_entry(name).is_some() {
            return Err(SyntaxError::DuplicateDeclaration { name: name.to_owned() });
        }
        let j = match self.find_entry(lookup.name.as_str()) {
            Some(j) => j,
            None => {
                return Err(SyntaxError::UndefinedVariable { name: lookup.name.clone() });
            },
        };
        let src = self.local_variables[j].1;
        let interior = src.is_interior || lookup.indices.len() > 0;
        let reg: usize = if interior {
            self.get_free_register()
        } else {
            src.register
        };
        let ghost mid = *self;
        push_alias(&mut self.variables, src.var, name.to_owned(), interior);
        self.local_variables.push((name.to_owned(), Reference { is_interior: interior, register: reg, var: src.var }));
        proof {
            assert(self.local_variables@.drop_last() =~= old(self).local_variables@);
            let sv = src.var as int;
            if interior {
                assert(self.variables@[sv].interiors@.drop_last() =~= old(self).variables@[sv].interiors@);
            } else {
                assert(self.variables@[sv].exteriors@.drop_last() =~= old(self).variables@[sv].exteriors@);
            }
            lemma_wf_after_create_ref(*old(self), mid, *self, name@, j as int, src, interior, reg);
        }
        Ok(reg)
    }

    /// Retire the alias `name`, proving it through `lookup`: both must
    /// resolve to the same variable, and an interior-only target
    /// cannot retire a non-interior alias.  The name is removed from
    /// both alias sets; the register is returned, not freed — the
    /// caller decides whether to free it.
    pub fn remove_ref(&mut self, name: &str, lookup: &PT::LookupNode) -> (r: Result<usize, SyntaxError>)
        requires
            old(self).wf(),
        ensures
            final(self).wf(),
            match r {
                Ok(reg) => {
                    &&& is_bound(old(self).local_variables@, name@)
                    &&& lookup.name@ != name@
                    &&& is_bound(old(self).local_variables@, lookup.name@)
                    &&& unref_ok(*old(self), name@, lookup.name@, lookup.indices@.len() > 0)
                    &&& removed_ref(*old(self), *final(self), name@, reg)
                },
                Err(e) => *final(self) == *old(self) && match e {
                    SyntaxError::UndefinedVariable { name: n } => (n@ == name@ && !is_bound(
                        old(self).local_variables@,
                        name@,
                    )) || (n@ == lookup.name@ && is_bound(old(self).local_variables@, name@) && (
                    lookup.name@ == name@ || !is_bound(old(self).local_variables@, lookup.name@))),
                    SyntaxError::InvalidUnref { name: n, register } => {
                        &&& n@ == name@
                        &&& register == the_ref(old(self).local_variables@, name@).register
                        &&& is_bound(old(self).local_variables@, name@)
                        &&& lookup.name@ != name@
                        &&& is_bound(old(self).local_variables@, lookup.name@)
                        &&& !unref_ok(*old(self), name@, lookup.name@, lookup.indices@.len() > 0)
                    },
                    _ => false,
                },
            },
    {
        let i = match self.find_entry(name) {
            Some(i) => i,
            None => {
                return Err(SyntaxError::UndefinedVariable { name: name.to_owned() });
            },
        };
        if str_eq(&lookup.name, name) {
            return Err(SyntaxError::UndefinedVariable { name: lookup.name.clone() });
        }
        let j = match self.find_entry(lookup.name.as_str()) {
            Some(j) => j,
            None => {
                return Err(SyntaxError::UndefinedVariable { name: lookup.name.clone() });
            },
        };
        let rf = self.local_variables[i].1;
        let other = self.local_variables[j].1;
        let interior = rf.is_interior || lookup.indices.len() > 0;
        if !(rf.var == other.var && !(other.is_interior && !interior)) {
            return Err(SyntaxError::InvalidUnref { name: name.to_owned(), register: rf.register });
        }
        let _ = self.local_variables.remove(i);
        remove_alias(&mut self.variables, rf.var, name);
        proof {
            old(self).local_variables@.remove_ensures(i as int);
            lemma_wf_after_remove_ref(*old(self), *self, name@, i as int, rf);
        }
        Ok(rf.register)
    }
}

/// Introducing an alias of a live variable preserves the aliasing
/// discipline, in both the interior and the exterior case.
proof fn lemma_wf_after_create_ref(
    pre: SyntaxContext,
    mid: SyntaxContext,
    post: SyntaxContext,
    name: Seq<char>,
    j: int,
    src: Reference,
    interior: bool,
    reg: usize,
)
    requires
        post.consts == pre.consts,
        pre.wf(),
        !is_bound(pre.local_variables@, name),
        0 <= j < pre.local_variables@.len(),
        pre.local_variables@[j].1 == src,
        interior ==> src.is_interior || interior,
        !interior ==> !src.is_interior && reg == src.register,
        // the register allocation step (identity when exterior)
        mid.local_variables == pre.local_variables,
        mid.variables == pre.variables,
        interior ==> fresh_register(pre.free_registers@, pre.num_registers, mid.free_registers@, mid.num_registers, reg)
            && !is_free(mid.free_registers@, reg) && reg < mid.num_registers
            && pre.num_registers <= mid.num_registers
            && (forall|k: int|
                0 <= k < mid.local_variables@.len() ==> (#[trigger] mid.local_variables@[k].1).register != reg),
        !interior ==> mid.free_registers == pre.free_registers && mid.num_registers == pre.num_registers,
        // the arena step
        post.free_registers == mid.free_registers,
        post.num_registers == mid.num_registers,
        post.variables@.len() == pre.variables@.len(),
        forall|w: int|
            0 <= w < pre.variables@.len() && w != src.var ==> post.variables@[w] == pre.variables@[w],
        interior ==> post.variables@[src.var as int].exteriors == pre.variables@[src.var as int].exteriors
            && post.variables@[src.var as int].interiors@ == pre.variables@[src.var as int].interiors@.push(
            post.variables@[src.var as int].interiors@.last(),
        ) && post.variables@[src.var as int].interiors@.last()@ == name,
        !interior ==> post.variables@[src.var as int].interiors == pre.variables@[src.var as int].interiors
            && post.variables@[src.var as int].exteriors@ == pre.variables@[src.var as int].exteriors@.push(
            post.variables@[src.var as int].exteriors@.last(),
        ) && post.variables@[src.var as int].exteriors@.last()@ == name,
        // the binding step
        post.local_variables@ == pre.local_variables@.push(post.local_variables@.last()),
        post.local_variables@.last().0@ == name,
        post.local_variables@.last().1.is_interior == interior,
        post.local_variables@.last().1.register == reg,
        post.local_variables@.last().1.var == src.var,
    ensures
        post.wf(),
{
    let es0 = pre.local_variables@;
    let es = post.local_variables@;
    let vs0 = pre.variables@;
    let vs = post.variables@;
    let sv = src.var as int;
    assert(src.var < vs0.len());
    assert(forall|k: int| 0 <= k < es0.len() ==> es[k] == es0[k]);
    assert forall|a: int, b: int| 0 <= a < b < es.len() implies es[a].0@ != es[b].0@ by {
        if b == es.len() - 1 {
            if es[a].0@ == name {
                assert(is_bound(es0, name));
            }
        }
    }
    // no alias-set name equals the new name
    assert forall|v: int, k: int|
        #![trigger vs0[v].exteriors@[k]]
        0 <= v < vs0.len() && 0 <= k < vs0[v].exteriors@.len() implies vs0[v].exteriors@[k]@
        != name by {
        if vs0[v].exteriors@[k]@ == name {
            assert(bound_to(es0, name, v, false));
        }
    }
    assert forall|v: int, k: int|
        #![trigger vs0[v].interiors@[k]]
        0 <= v < vs0.len() && 0 <= k < vs0[v].interiors@.len() implies vs0[v].interiors@[k]@
        != name by {
        if vs0[v].interiors@[k]@ == name {
            assert(bound_to(es0, name, v, true));
        }
    }
    assert forall|a: int, b: int|
        0 <= a < es.len() && 0 <= b < es.len() && a != b && (#[trigger] es[a].1).register == (
        #[trigger] es[b].1).register implies es[a].1.var == es[b].1.var && !es[a].1.is_interior
        && !es[b].1.is_interior by {
        if a < es.len() - 1 && b < es.len() - 1 {
        } else {
            let o: int = if a == es.len() - 1 {
                b
            } else {
                a
            };
            if interior {
                assert(es[o].1.register != reg);
            } else {
                // sharing src's register: the old entry shares with src
                if es[o].1.register == reg {
                    if o != j {
                        assert(es0[o].1.register == es0[j].1.register);
                    }
                    assert(es[o].1.var == src.var && !es[o].1.is_interior);
                }
            }
        }
    }
    assert forall|k: int| 0 <= k < es.len() implies {
        let e = #[trigger] es[k];
        if e.1.is_interior {
            has_name(vs[e.1.var as int].interiors@, e.0@)
        } else {
            has_name(vs[e.1.var as int].exteriors@, e.0@)
        }
    } by {
        if k < es.len() - 1 {
            assert(es[k] == es0[k]);
            let v = es0[k].1.var as int;
            if v != sv {
                assert(vs[v] == vs0[v]);
            } else {
                if es0[k].1.is_interior {
                    let w = choose|x: int|
                        0 <= x < vs0[sv].interiors@.len() && vs0[sv].interiors@[x]@ == es0[k].0@;
                    if interior {
                        assert(vs[sv].interiors@[w] == vs0[sv].interiors@[w]);
                    }
                } else {
                    let w = choose|x: int|
                        0 <= x < vs0[sv].exteriors@.len() && vs0[sv].exteriors@[x]@ == es0[k].0@;
                    if !interior {
                        assert(vs[sv].exteriors@[w] == vs0[sv].exteriors@[w]);
                    }
                }
            }
        } else {
            if interior {
                assert(vs[sv].interiors@.last()@ == name);
            } else {
                assert(vs[sv].exteriors@.last()@ == name);
            }
        }
    }
    assert forall|v: int, k: int|
        #![trigger vs[v].exteriors@[k]]
        0 <= v < vs.len() && 0 <= k < vs[v].exteriors@.len() implies bound_to(
        es,
        vs[v].exteriors@[k]@,
        v,
        false,
    ) by {
        if v != sv || interior {
            assert(vs[v].exteriors == vs0[v].exteriors);
            assert(bound_to(es0, vs0[v].exteriors@[k]@, v, false));
            let w = choose|x: int|
                0 <= x < es0.len() && es0[x].0@ == vs0[v].exteriors@[k]@ && es0[x].1.var == v
                    && es0[x].1.is_interior == false;
            assert(es[w] == es0[w]);
        } else {
            if k < vs0[sv].exteriors@.len() {
                assert(vs[sv].exteriors@[k] == vs0[sv].exteriors@[k]);
                assert(bound_to(es0, vs0[v].exteriors@[k]@, v, false));
                let w = choose|x: int|
                    0 <= x < es0.len() && es0[x].0@ == vs0[v].exteriors@[k]@ && es0[x].1.var == v
                        && es0[x].1.is_interior == false;
                assert(es[w] == es0[w]);
            } else {
                assert(vs[v].exteriors@[k]@ == name);
                assert(es.last().0@ == name && es.last().1.var == v && !es.last().1.is_interior);
            }
        }
    }
    assert forall|v: int, k: int|
        #![trigger vs[v].interiors@[k]]
        0 <= v < vs.len() && 0 <= k < vs[v].interiors@.len() implies bound_to(
        es,
        vs[v].interiors@[k]@,
        v,
        true,
    ) by {
        if v != sv || !interior {
            assert(vs[v].interiors == vs0[v].interiors);
            assert(bound_to(es0, vs0[v].interiors@[k]@, v, true));
            let w = choose|x: int|
                0 <= x < es0.len() && es0[x].0@ == vs0[v].interiors@[k]@ && es0[x].1.var == v
                    && es0[x].1.is_interior == true;
            assert(es[w] == es0[w]);
        } else {
            if k < vs0[sv].interiors@.len() {
                assert(vs[sv].interiors@[k] == vs0[sv].interiors@[k]);
                assert(bound_to(es0, vs0[v].interiors@[k]@, v, true));
                let w = choose|x: int|
                    0 <= x < es0.len() && es0[x].0@ == vs0[v].interiors@[k]@ && es0[x].1.var == v
                        && es0[x].1.is_interior == true;
                assert(es[w] == es0[w]);
            } else {
                assert(vs[v].interiors@[k]@ == name);
                assert(es.last().0@ == name && es.last().1.var == v && es.last().1.is_interior);
            }
        }
    }
    assert forall|v: int|
        0 <= v < vs.len() implies names_distinct((#[trigger] vs[v]).exteriors@) && names_distinct(
        vs[v].interiors@,
    ) by {
        if v != sv {
            assert(vs[v] == vs0[v]);
        } else {
            if interior {
                assert(vs[sv].exteriors == vs0[sv].exteriors);
                assert forall|a: int, b: int|
                    0 <= a < b < vs[sv].interiors@.len() implies vs[sv].interiors@[a]@ != vs[
                    sv
                ].interiors@[b]@ by {
                    if b < vs0[sv].interiors@.len() {
                        assert(vs[sv].interiors@[a] == vs0[sv].interiors@[a]);
                        assert(vs[sv].interiors@[b] == vs0[sv].interiors@[b]);
                    } else {
                        assert(vs[sv].interiors@[a] == vs0[sv].interiors@[a]);
                        assert(vs0[sv].interiors@[a]@ != name);
                    }
                }
            } else {
                assert(vs[sv].interiors == vs0[sv].interiors);
                assert forall|a: int, b: int|
                    0 <= a < b < vs[sv].exteriors@.len() implies vs[sv].exteriors@[a]@ != vs[
                    sv
                ].exteriors@[b]@ by {
                    if b < vs0[sv].exteriors@.len() {
                        assert(vs[sv].exteriors@[a] == vs0[sv].exteriors@[a]);
                        assert(vs[sv].exteriors@[b] == vs0[sv].exteriors@[b]);
                    } else {
                        assert(vs[sv].exteriors@[a] == vs0[sv].exteriors@[a]);
                        assert(vs0[sv].exteriors@[a]@ != name);
                    }
                }
            }
        }
    }
}

/// Retiring an alias preserves the aliasing discipline: the register
/// pool is untouched and only the retired name leaves the sets.
proof fn lemma_wf_after_remove_ref(
    pre: SyntaxContext,
    post: SyntaxContext,
    name: Seq<char>,
    i: int,
    rf: Reference,
)
    requires
        post.consts == pre.consts,
        pre.wf(),
        0 <= i < pre.local_variables@.len(),
        pre.local_variables@[i].0@ == name,
        pre.local_variables@[i].1 == rf,
        post.local_variables@ == pre.local_variables@.remove(i),
        post.free_registers == pre.free_registers,
        post.num_registers == pre.num_registers,
        post.variables@.len() == pre.variables@.len(),
        forall|w: int|
            0 <= w < pre.variables@.len() && w != rf.var ==> post.variables@[w] == pre.variables@[w],
        seq_name_removed(
            pre.variables@[rf.var as int].exteriors@,
            post.variables@[rf.var as int].exteriors@,
            name,
        ),
        seq_name_removed(
            pre.variables@[rf.var as int].interiors@,
            post.variables@[rf.var as int].interiors@,
            name,
        ),
        names_distinct(post.variables@[rf.var as int].exteriors@),
        names_distinct(post.variables@[rf.var as int].interiors@),
        !has_name(post.variables@[rf.var as int].exteriors@, name),
        !has_name(post.variables@[rf.var as int].interiors@, name),
        forall|n: Seq<char>|
            n != name ==> #[trigger] has_name(post.variables@[rf.var as int].exteriors@, n)
                == has_name(pre.variables@[rf.var as int].exteriors@, n),
        forall|n: Seq<char>|
            n != name ==> #[trigger] has_name(post.variables@[rf.var as int].interiors@, n)
                == has_name(pre.variables@[rf.var as int].interiors@, n),
    ensures
        post.wf(),
{
    let es0 = pre.local_variables@;
    let es = post.local_variables@;
    let vs0 = pre.variables@;
    let vs = post.variables@;
    let sv = rf.var as int;
    es0.remove_ensures(i);
    assert forall|k: int| 0 <= k < es.len() implies #[trigger] es[k] == es0[if k < i {
        k
    } else {
        k + 1
    }] by {}
    assert forall|k: int| 0 <= k < es.len() implies {
        let e = #[trigger] es[k];
        if e.1.is_interior {
            has_name(vs[e.1.var as int].interiors@, e.0@)
        } else {
            has_name(vs[e.1.var as int].exteriors@, e.0@)
        }
    } by {
        let k0: int = if k < i { k } else { k + 1 };
        assert(es[k] == es0[k0]);
        let v = es0[k0].1.var as int;
        assert(es0[k0].0@ != name);
        if v != sv {
            assert(vs[v] == vs0[v]);
        }
    }
    assert forall|v: int, k: int|
        #![trigger vs[v].exteriors@[k]]
        0 <= v < vs.len() && 0 <= k < vs[v].exteriors@.len() implies bound_to(
        es,
        vs[v].exteriors@[k]@,
        v,
        false,
    ) by {
        let n = vs[v].exteriors@[k]@;
        if v == sv {
            assert(n != name);
            assert(has_name(vs[sv].exteriors@, n));
            assert(has_name(vs0[sv].exteriors@, n));
        } else {
            assert(vs[v] == vs0[v]);
        }
        assert(has_name(vs0[v].exteriors@, n));
        let x = choose|x: int| 0 <= x < vs0[v].exteriors@.len() && vs0[v].exteriors@[x]@ == n;
        assert(bound_to(es0, n, v, false));
        let w = choose|y: int|
            0 <= y < es0.len() && es0[y].0@ == n && es0[y].1.var == v && es0[y].1.is_interior
                == false;
        if v == sv {
            assert(w != i);
        } else {
            assert(w != i);
        }
        let w2: int = if w < i { w } else { w - 1 };
        assert(es[w2] == es0[w]);
    }
    assert forall|v: int, k: int|
        #![trigger vs[v].interiors@[k]]
        0 <= v < vs.len() && 0 <= k < vs[v].interiors@.len() implies bound_to(
        es,
        vs[v].interiors@[k]@,
        v,
        true,
    ) by {
        let n = vs[v].interiors@[k]@;
        if v == sv {
            assert(n != name);
            assert(has_name(vs[sv].interiors@, n));
            assert(has_name(vs0[sv].interiors@, n));
        } else {
            assert(vs[v] == vs0[v]);
        }
        assert(has_name(vs0[v].interiors@, n));
        assert(bound_to(es0, n, v, true));
        let w = choose|y: int|
            0 <= y < es0.len() && es0[y].0@ == n && es0[y].1.var == v && es0[y].1.is_interior
                == true;
        assert(w != i);
        let w2: int = if w < i { w } else { w - 1 };
        assert(es[w2] == es0[w]);
    }
    assert forall|v: int|
        0 <= v < vs.len() implies names_distinct((#[trigger] vs[v]).exteriors@) && names_distinct(
        vs[v].interiors@,
    ) by {
        if v != sv {
            assert(vs[v] == vs0[v]);
        }
    }
}


/// While no aliases exist — every bound variable has at most one
/// exterior alias and no interior ones, as after any sequence of
/// `create_variable` / `remove_variable` calls — the registers of two
/// distinct bindings are distinct.
pub proof fn lemma_registers_distinct(ctx: SyntaxContext, i: int, j: int)
    requires
        ctx.wf(),
        0 <= i < ctx.local_variables@.len(),
        0 <= j < ctx.local_variables@.len(),
        i != j,
        ctx.variables@[ctx.local_variables@[i].1.var as int].exteriors@.len() <= 1,
    ensures
        ctx.local_variables@[i].1.register != ctx.local_variables@[j].1.register,
{
    let es = ctx.local_variables@;
    let vs = ctx.variables@;
    if es[i].1.register == es[j].1.register {
        let v = es[i].1.var as int;
        assert(es[j].1.var == es[i].1.var && !es[i].1.is_interior && !es[j].1.is_interior);
        assert(has_name(vs[v].exteriors@, es[i].0@));
        assert(has_name(vs[v].exteriors@, es[j].0@));
        let a = choose|x: int| 0 <= x < vs[v].exteriors@.len() && vs[v].exteriors@[x]@ == es[i].0@;
        let b = choose|x: int| 0 <= x < vs[v].exteriors@.len() && vs[v].exteriors@[x]@ == es[j].0@;
        assert(a == 0 && b == 0);
        assert(es[i].0@ == es[j].0@);
    }
}

/// The register high-water mark never decreases across the variable
/// operations.
pub proof fn lemma_num_registers_monotone(
    pre: SyntaxContext,
    post: SyntaxContext,
    name: Seq<char>,
    reg: usize,
)
    requires
        created_variable(pre, post, name, reg) || removed_variable(pre, post, name, reg),
    ensures
        post.num_registers >= pre.num_registers,
{
}

/// The round-trip law: introducing an exterior alias with `create_ref`
/// and immediately retiring it with `remove_ref` restores the binding
/// table, the free-register pool and the high-water mark.
///
/// An interior alias is no such round trip: it takes a register of its
/// own, and `remove_ref` hands that register back to the caller
/// instead of returning it to the pool.
pub proof fn lemma_ref_round_trip(
    pre: SyntaxContext,
    mid: SyntaxContext,
    post: SyntaxContext,
    name: Seq<char>,
    target: Seq<char>,
    reg: usize,
    reg2: usize,
)
    requires
        pre.wf(),
        mid.wf(),
        !is_bound(pre.local_variables@, name),
        is_bound(pre.local_variables@, target),
        !the_ref(pre.local_variables@, target).is_interior,
        created_ref(pre, mid, name, target, false, reg),
        removed_ref(mid, post, name, reg2),
    ensures
        post.local_variables@ == pre.local_variables@,
        post.free_registers == pre.free_registers,
        post.num_registers == pre.num_registers,
        reg2 == reg,
{
    let es0 = pre.local_variables@;
    let es1 = mid.local_variables@;
    let last = es1.len() - 1;
    assert(es1[last].0@ == name);
    let i = index_of(es1, name);
    assert(0 <= i < es1.len() && es1[i].0@ == name);
    assert forall|k: int| 0 <= k < last implies (#[trigger] es1[k]).0@ != name by {
        assert(es1[k] == es0[k]);
        if es0[k].0@ == name {
            assert(is_bound(es0, name));
        }
    }
    assert(i == last);
    assert(the_ref(es1, name) == es1[last].1);
    assert(reg2 == reg);
    es1.remove_ensures(i);
    assert(post.local_variables@ =~= es0);
}

/// Interior status is monotonic: an alias derived from an interior
/// reference is itself interior, whatever the length of its index
/// path.
pub proof fn lemma_interior_monotonic(
    pre: SyntaxContext,
    post: SyntaxContext,
    name: Seq<char>,
    target: Seq<char>,
    has_path: bool,
    reg: usize,
)
    requires
        pre.wf(),
        !is_bound(pre.local_variables@, name),
        is_bound(pre.local_variables@, target),
        the_ref(pre.local_variables@, target).is_interior,
        created_ref(pre, post, name, target, has_path, reg),
    ensures
        is_bound(post.local_variables@, name),
        the_ref(post.local_variables@, name).is_interior,
{
    let es0 = pre.local_variables@;
    let es1 = post.local_variables@;
    let last = es1.len() - 1;
    assert(es1[last].0@ == name);
    assert(is_bound(es1, name));
    let i = index_of(es1, name);
    assert(0 <= i < es1.len() && es1[i].0@ == name);
    assert forall|k: int| 0 <= k < last implies (#[trigger] es1[k]).0@ != name by {
        assert(es1[k] == es0[k]);
        if es0[k].0@ == name {
            assert(is_bound(es0, name));
        }
    }
    assert(i == last);
}


/// The aliased-destroy law: after a `let` binds `x` and a `ref` adds
/// an exterior alias `y` of `x`, the variable of `x` carries two
/// exterior aliases, so by `remove_variable`'s contract (and
/// `let_unlet_err` one level up) an `unlet x` must fail with
/// `AliasedDestroy` and leave the context unchanged.
pub proof fn lemma_aliased_destroy(
    c0: SyntaxContext,
    c1: SyntaxContext,
    c2: SyntaxContext,
    x: Seq<char>,
    y: Seq<char>,
    rx: usize,
    ry: usize,
)
    requires
        c0.wf(),
        c1.wf(),
        c2.wf(),
        !is_bound(c0.local_variables@, x),
        created_variable_binding(c0, c1, x, rx),
        !is_bound(c1.local_variables@, y),
        y != x,
        created_ref_binding(c1, c2, y, x, false, ry),
    ensures
        is_bound(c2.local_variables@, x),
        c2.variables@[the_ref(c2.local_variables@, x).var as int].exteriors@.len() > 1,
{
    let es1 = c1.local_variables@;
    let es2 = c2.local_variables@;
    let last1 = es1.len() - 1;
    // x's binding in c1 is the entry the let pushed
    assert(es1[last1].0@ == x);
    let i1 = index_of(es1, x);
    assert(0 <= i1 < es1.len() && es1[i1].0@ == x);
    assert forall|k: int| 0 <= k < last1 implies (#[trigger] es1[k]).0@ != x by {
        assert(es1[k] == c0.local_variables@[k]);
        if c0.local_variables@[k].0@ == x {
            assert(is_bound(c0.local_variables@, x));
        }
    }
    assert(i1 == last1);
    let xref = the_ref(es1, x);
    assert(xref.var == c0.variables@.len());
    assert(!xref.is_interior);
    // x's binding survives the ref unchanged
    assert(es2[i1] == es1[i1]);
    assert(is_bound(es2, x));
    let i2 = index_of(es2, x);
    assert(0 <= i2 < es2.len() && es2[i2].0@ == x);
    assert(entries_distinct(es2));
    assert(i2 == i1);
    // the ref pushed y onto that variable's exterior set
    let sv = xref.var as int;
    assert(c1.variables@[sv].exteriors@.len() == 1);
    assert(c2.variables@[sv].exteriors@.len() == c1.variables@[sv].exteriors@.len() + 1);
}

/// Constant-pool insertion is idempotent on structurally equal values:
/// a second insertion of an equal value returns the same index and
/// leaves the pool unchanged, so the pool grows by at most one entry
/// across the two calls.
pub proof fn lemma_add_const_idempotent(
    c0: Seq<Val>,
    v: Val,
    c1: Seq<Val>,
    i1: int,
    c2: Seq<Val>,
    i2: int,
)
    requires
        added_const(c0, v, c1, i1),
        added_const(c1, v, c2, i2),
    ensures
        i2 == i1,
        c2 == c1,
        c1.len() <= c0.len() + 1,
{
    assert(c1[i1] == v);
    assert(has_const(c1, v));
    assert(c2 == c1);
    if i1 < i2 {
        assert(c2[i1] != v);
        assert(c2[i1] == c1[i1]);
    }
    if i2 < i1 {
        assert(c1[i2] != v);
    }
}




/// All number literals an expression carries, in order.
pub open spec fn expr_fracs(n: PT::ExpressionNode) -> Seq<num_rational::BigRational>
    decreases n, 0int,
{
    match n {
        PT::ExpressionNode::Fraction(f) => seq![f.value],
        PT::ExpressionNode::Binop(b) => expr_fracs(b.lhs) + expr_fracs(b.rhs),
        PT::ExpressionNode::ArrayLiteral(a) => exprs_fracs(a.items),
        PT::ExpressionNode::Lookup(l) => exprs_fracs(l.indices),
    }
}

/// All number literals the first `n` expressions of a list carry.
pub open spec fn exprs_fracs_upto(items: Vec<PT::ExpressionNode>, n: int) -> Seq<num_rational::BigRational>
    decreases items, n,
{
    if n <= 0 || n > items@.len() {
        seq![]
    } else {
        exprs_fracs_upto(items, n - 1) + expr_fracs(items[n - 1])
    }
}

/// All number literals a list of expressions carries, in order.
pub open spec fn exprs_fracs(items: Vec<PT::ExpressionNode>) -> Seq<num_rational::BigRational>
    decreases items, items@.len() as int + 1,
{
    exprs_fracs_upto(items, items@.len() as int)
}

/// All number literals a statement carries, in order.
pub open spec fn stmt_fracs(s: PT::StatementNode) -> Seq<num_rational::BigRational>
    decreases s, 0int,
{
    match s {
        PT::StatementNode::LetUnlet(b) => expr_fracs(b.rhs),
        PT::StatementNode::RefUnref(b) => exprs_fracs(b.rhs.indices),
        PT::StatementNode::Modop(b) => exprs_fracs(b.lookup.indices) + expr_fracs(b.rhs),
        PT::StatementNode::If(b) => expr_fracs(b.fwd_expr) + expr_fracs(b.bkwd_expr) + stmts_fracs(
            b.if_stmts,
        ) + stmts_fracs(b.else_stmts),
        PT::StatementNode::Catch(b) => expr_fracs(b.expr),
    }
}

/// All number literals the first `n` statements of a list carry.
pub open spec fn stmts_fracs_upto(list: Vec<PT::StatementNode>, n: int) -> Seq<num_rational::BigRational>
    decreases list, n,
{
    if n <= 0 || n > list@.len() {
        seq![]
    } else {
        stmts_fracs_upto(list, n - 1) + stmt_fracs(list[n - 1])
    }
}

/// All number literals a statement list carries, in order.
pub open spec fn stmts_fracs(list: Vec<PT::StatementNode>) -> Seq<num_rational::BigRational>
    decreases list, list@.len() as int + 1,
{
    stmts_fracs_upto(list, list@.len() as int)
}

/// Every rational of the list is well formed.
pub open spec fn rats_wf(s: Seq<num_rational::BigRational>) -> bool {
    forall|k: int| 0 <= k < s.len() ==> #[trigger] rat_wf(s[k])
}

/// Well-formedness of a concatenation gives it for both parts.
proof fn lemma_rats_wf_split(a: Seq<num_rational::BigRational>, b: Seq<num_rational::BigRational>)
    requires
        rats_wf(a + b),
    ensures
        rats_wf(a),
        rats_wf(b),
{
    assert forall|k: int| 0 <= k < a.len() implies #[trigger] rat_wf(a[k]) by {
        assert((a + b)[k] == a[k]);
        assert(rat_wf((a + b)[k]));
    }
    assert forall|k: int| 0 <= k < b.len() implies #[trigger] rat_wf(b[k]) by {
        assert((a + b)[a.len() + k] == b[k]);
        assert(rat_wf((a + b)[a.len() + k]));
    }
}

/// Well-formed literals of a list give well-formed literals of each
/// expression in it.
proof fn lemma_exprs_fracs_member(items: Vec<PT::ExpressionNode>, n: int, i: int)
    requires
        rats_wf(exprs_fracs_upto(items, n)),
        0 <= i < n <= items@.len(),
    ensures
        rats_wf(expr_fracs(items@[i])),
    decreases n,
{
    lemma_rats_wf_split(exprs_fracs_upto(items, n - 1), expr_fracs(items@[n - 1]));
    if i < n - 1 {
        lemma_exprs_fracs_member(items, n - 1, i);
    }
}

/// Well-formed literals of a list give well-formed literals of each
/// statement in it.
proof fn lemma_stmts_fracs_member(list: Vec<PT::StatementNode>, n: int, i: int)
    requires
        rats_wf(stmts_fracs_upto(list, n)),
        0 <= i < n <= list@.len(),
    ensures
        rats_wf(stmt_fracs(list@[i])),
    decreases n,
{
    lemma_rats_wf_split(stmts_fracs_upto(list, n - 1), stmt_fracs(list@[n - 1]));
    if i < n - 1 {
        lemma_stmts_fracs_member(list, n - 1, i);
    }
}

/// All variable names an expression reads, in evaluation order.
pub open spec fn expr_names(n: PT::ExpressionNode) -> Seq<Seq<char>>
    decreases n, 0int,
{
    match n {
        PT::ExpressionNode::Fraction(_) => seq![],
        PT::ExpressionNode::Binop(b) => expr_names(b.lhs) + expr_names(b.rhs),
        PT::ExpressionNode::ArrayLiteral(a) => exprs_names(a.items),
        PT::ExpressionNode::Lookup(l) => lookup_names(*l),
    }
}

/// All variable names the first `n` expressions of a list read.
pub open spec fn exprs_names_upto(items: Vec<PT::ExpressionNode>, n: int) -> Seq<Seq<char>>
    decreases items, n,
{
    if n <= 0 || n > items@.len() {
        seq![]
    } else {
        exprs_names_upto(items, n - 1) + expr_names(items[n - 1])
    }
}

/// All variable names a list of expressions reads, in order.
pub open spec fn exprs_names(items: Vec<PT::ExpressionNode>) -> Seq<Seq<char>>
    decreases items, items@.len() as int + 1,
{
    exprs_names_upto(items, items@.len() as int)
}

/// All variable names a lookup reads: its base name, then the names of
/// its index expressions.
pub open spec fn lookup_names(l: PT::LookupNode) -> Seq<Seq<char>>
    decreases l, 0int,
{
    seq![l.name@] + exprs_names(l.indices)
}

/// Whether one of the names is `x`.
pub open spec fn names_has(names: Seq<Seq<char>>, x: Seq<char>) -> bool {
    exists|k: int| 0 <= k < names.len() && names[k] == x
}

/// A name of either part is a name of the concatenation.
proof fn lemma_names_concat(a: Seq<Seq<char>>, b: Seq<Seq<char>>, x: Seq<char>)
    requires
        names_has(a, x) || names_has(b, x),
    ensures
        names_has(a + b, x),
{
    if names_has(a, x) {
        let k = choose|k: int| 0 <= k < a.len() && a[k] == x;
        assert((a + b)[k] == x);
    } else {
        let k = choose|k: int| 0 <= k < b.len() && b[k] == x;
        assert((a + b)[a.len() + k] == x);
    }
}

/// A name of the i-th expression is a name of the list.
proof fn lemma_exprs_names_member(items: Vec<PT::ExpressionNode>, n: int, i: int, x: Seq<char>)
    requires
        0 <= i < n <= items@.len(),
        names_has(expr_names(items@[i]), x),
    ensures
        names_has(exprs_names_upto(items, n), x),
    decreases n,
{
    if i == n - 1 {
        lemma_names_concat(exprs_names_upto(items, n - 1), expr_names(items@[i]), x);
    } else {
        lemma_exprs_names_member(items, n - 1, i, x);
        lemma_names_concat(exprs_names_upto(items, n - 1), expr_names(items@[n - 1]), x);
    }
}


/// The one-level correspondence of a lowered expression to its input:
/// the kinds match, operators are carried over, array lengths are kept,
/// and a lookup resolves its base name against the given bindings.
pub open spec fn expr_lowered_shape(
    n: PT::ExpressionNode,
    e: ST::ExpressionNode,
    es: Seq<(String, Reference)>,
) -> bool {
    match n {
        PT::ExpressionNode::Fraction(_) => e is Fraction,
        PT::ExpressionNode::Binop(b) => e is Binop && e->Binop_0.op == b.op,
        PT::ExpressionNode::ArrayLiteral(a) => e is ArrayLiteral
            && e->ArrayLiteral_0.items@.len() == a.items@.len(),
        PT::ExpressionNode::Lookup(l) => e is Lookup && is_bound(es, l.name@)
            && e->Lookup_0.register == the_ref(es, l.name@).register,
    }
}

/// The kind correspondence of a lowered statement to its input.
pub open spec fn stmt_lowered_kind(n: PT::StatementNode, s: ST::StatementNode) -> bool {
    match n {
        PT::StatementNode::LetUnlet(b) => s matches ST::StatementNode::LetUnlet(t) && t.is_unlet
            == b.is_unlet,
        PT::StatementNode::RefUnref(b) => s matches ST::StatementNode::RefUnref(t) && t.is_unref
            == b.is_unref,
        PT::StatementNode::Modop(b) => s matches ST::StatementNode::Modop(t) && t.op == b.op,
        PT::StatementNode::If(_) => s is If,
        PT::StatementNode::Catch(_) => s is Catch,
    }
}

/// Lowering an expression reads the binding state and only ever
/// appends to the constant pool.
pub open spec fn expr_ctx_frame(pre: SyntaxContext, post: SyntaxContext) -> bool {
    &&& post.local_variables == pre.local_variables
    &&& post.variables == pre.variables
    &&& post.free_registers == pre.free_registers
    &&& post.num_registers == pre.num_registers
    &&& post.func_names == pre.func_names
    &&& consts_prefix(val_views(pre.consts@), val_views(post.consts@))
}

/// The earlier pool is a prefix of the later one: lowering never
/// reorders or drops constants.
pub open spec fn consts_prefix(pre: Seq<Val>, post: Seq<Val>) -> bool {
    pre.len() <= post.len() && (forall|k: int| 0 <= k < pre.len() ==> pre[k] == post[k])
}

/// Lowering a statement keeps the function-name table, never shrinks
/// the register high-water mark, and only appends to the constant
/// pool.
pub open spec fn stmt_ctx_evolution(pre: SyntaxContext, post: SyntaxContext) -> bool {
    &&& post.func_names == pre.func_names
    &&& post.num_registers >= pre.num_registers
    &&& consts_prefix(val_views(pre.consts@), val_views(post.consts@))
}

/// Append the elements of one register list to another.
fn append_regs(dst: &mut Vec<usize>, src: &Vec<usize>)
    ensures
        final(dst)@ == old(dst)@ + src@,
{
    let n = src.len();
    let mut i: usize = 0;
    while i < n
        invariant
            n == src@.len(),
            0 <= i <= n,
            dst@ == old(dst)@ + src@.subrange(0, i as int),
        decreases n - i,
    {
        let r = src[i];
        dst.push(r);
        proof {
            assert(dst@ =~= old(dst)@ + src@.subrange(0, i + 1));
        }
        i += 1;
    }
    proof {
        assert(src@.subrange(0, n as int) =~= src@);
    }
}

impl ST::FractionNode {
    /// Lower a number literal: the value joins the deduplicated
    /// constant pool and the node records its index.  A literal reads
    /// no registers.
    pub fn from(node: &PT::FractionNode, ctx: &mut SyntaxContext) -> (r: ST::FractionNode)
        requires
            old(ctx).wf(),
            rat_wf(node.value),
        ensures
            ctx_wf_frame(*old(ctx), *final(ctx)),
            added_const(
                val_views(old(ctx).consts@),
                Val::Frac(node.value),
                val_views(final(ctx).consts@),
                r.const_idx as int,
            ),
            r.used_vars@.len() == 0,
    {
        let value = rat_clone(&node.value);
        let v = Value::Fraction(value);
        proof {
            assert(v@ == Val::Frac(node.value));
            assert(val_wf(v@));
        }
        let const_idx = ctx.add_const(v);
        ST::FractionNode { const_idx, used_vars: Vec::new() }
    }
}

/// The fields an expression lowering never touches.
pub open spec fn ctx_wf_frame(pre: SyntaxContext, post: SyntaxContext) -> bool {
    &&& post.wf()
    &&& expr_ctx_frame(pre, post)
}

impl ST::BinopNode {
    /// Lower a binary operation: both operands in order, the operator
    /// kept; monomorphism and used variables propagate up.
    pub fn from(node: &PT::BinopNode, ctx: &mut SyntaxContext) -> (r: Result<ST::BinopNode, SyntaxError>)
        requires
            old(ctx).wf(),
            rats_wf(expr_fracs(node.lhs)),
            rats_wf(expr_fracs(node.rhs)),
        ensures
            ctx_wf_frame(*old(ctx), *final(ctx)),
            match r {
                Ok(b) => {
                    &&& b.op == node.op
                    &&& expr_lowered_shape(node.lhs, b.lhs, old(ctx).local_variables@)
                    &&& expr_lowered_shape(node.rhs, b.rhs, old(ctx).local_variables@)
                    &&& b.is_mono == (ST::spec_expr_is_mono(b.lhs) && ST::spec_expr_is_mono(b.rhs))
                    &&& b.used_vars@ == ST::spec_expr_used_vars(b.lhs) + ST::spec_expr_used_vars(
                        b.rhs,
                    )
                },
                Err(e) => e matches SyntaxError::UndefinedVariable { name: n } && !is_bound(
                    old(ctx).local_variables@,
                    n@,
                ) && names_has(expr_names(node.lhs) + expr_names(node.rhs), n@),
            },
        decreases *node,
    {
        let lhs = match ST::ExpressionNode::from(&node.lhs, ctx) {
            Ok(e) => e,
            Err(e) => {
                proof {
                    let n = e->UndefinedVariable_name;
                    lemma_names_concat(expr_names(node.lhs), expr_names(node.rhs), n@);
                }
                return Err(e);
            },
        };
        let rhs = match ST::ExpressionNode::from(&node.rhs, ctx) {
            Ok(e) => e,
            Err(e) => {
                proof {
                    let n = e->UndefinedVariable_name;
                    lemma_names_concat(expr_names(node.lhs), expr_names(node.rhs), n@);
                }
                return Err(e);
            },
        };
        let is_mono = ST::expr_is_mono(&lhs) && ST::expr_is_mono(&rhs);
        let mut used_vars: Vec<usize> = Vec::new();
        append_regs(&mut used_vars, ST::expr_used_vars(&lhs));
        append_regs(&mut used_vars, ST::expr_used_vars(&rhs));
        proof {
            assert(used_vars@ =~= ST::spec_expr_used_vars(lhs) + ST::spec_expr_used_vars(rhs));
        }
        Ok(ST::BinopNode { lhs, rhs, op: node.op, is_mono, used_vars })
    }
}

impl ST::ArrayLiteralNode {
    /// Lower an array literal: each item in order; monomorphism and
    /// used variables propagate up.
    pub fn from(node: &PT::ArrayLiteralNode, ctx: &mut SyntaxContext) -> (r: Result<ST::ArrayLiteralNode, SyntaxError>)
        requires
            old(ctx).wf(),
            rats_wf(exprs_fracs(node.items)),
        ensures
            ctx_wf_frame(*old(ctx), *final(ctx)),
            match r {
                Ok(a) => {
                    &&& a.items@.len() == node.items@.len()
                    &&& (forall|k: int|
                        0 <= k < a.items@.len() ==> expr_lowered_shape(
                            node.items@[k],
                            #[trigger] a.items@[k],
                            old(ctx).local_variables@,
                        ))
                    &&& a.is_mono == (forall|k: int|
                        0 <= k < a.items@.len() ==> ST::spec_expr_is_mono(#[trigger] a.items@[k]))
                    &&& a.used_vars@ == exprs_used_vars(a.items@)
                },
                Err(e) => e matches SyntaxError::UndefinedVariable { name: n } && !is_bound(
                    old(ctx).local_variables@,
                    n@,
                ) && names_has(exprs_names(node.items), n@),
            },
        decreases *node,
    {
        let n = node.items.len();
        let mut items: Vec<ST::ExpressionNode> = Vec::new();
        let mut is_mono = true;
        let mut used_vars: Vec<usize> = Vec::new();
        let mut i: usize = 0;
        while i < n
            invariant
                old(ctx).wf(),
                ctx.wf(),
                ctx_wf_frame(*old(ctx), *ctx),
                n == node.items@.len(),
                0 <= i <= n,
                items@.len() == i,
                rats_wf(exprs_fracs(node.items)),
                forall|k: int|
                    0 <= k < i ==> expr_lowered_shape(
                        node.items@[k],
                        #[trigger] items@[k],
                        old(ctx).local_variables@,
                    ),
                is_mono == (forall|k: int|
                    0 <= k < i ==> ST::spec_expr_is_mono(#[trigger] items@[k])),
                used_vars@ == exprs_used_vars(items@),
            decreases n - i,
        {
            proof {
                assert(decreases_to!(*node => node.items));
                assert(decreases_to!(node.items => node.items@));
                assert(decreases_to!(node.items@ => node.items@[i as int]));
                lemma_exprs_fracs_member(node.items, node.items@.len() as int, i as int);
            }
            let item = match ST::ExpressionNode::from(&node.items[i], ctx) {
                Ok(e) => e,
                Err(e) => {
                    proof {
                        let n = e->UndefinedVariable_name;
                        lemma_exprs_names_member(node.items, node.items@.len() as int, i as int, n@);
                    }
                    return Err(e);
                },
            };
            is_mono = is_mono && ST::expr_is_mono(&item);
            append_regs(&mut used_vars, ST::expr_used_vars(&item));
            let ghost prev = items@;
            items.push(item);
            proof {
                lemma_exprs_used_vars_upto_push(prev, item, prev.len() as int);
                assert(forall|k: int| 0 <= k < prev.len() ==> items@[k] == prev[k]);
                assert(items@[prev.len() as int] == item);
            }
            i += 1;
        }
        let result = ST::ArrayLiteralNode { items, is_mono, used_vars };
        proof {
            assert(result.items@ == items@);
            assert(forall|k: int|
                0 <= k < result.items@.len() ==> expr_lowered_shape(
                    node.items@[k],
                    #[trigger] result.items@[k],
                    old(ctx).local_variables@,
                ));
            assert(result.is_mono == (forall|k: int|
                0 <= k < result.items@.len() ==> ST::spec_expr_is_mono(
                    #[trigger] result.items@[k],
                )));
            assert(result.used_vars@ == exprs_used_vars(result.items@));
        }
        Ok(result)
    }
}

impl ST::LookupNode {
    /// Lower a lookup: the base name resolves to its register, the
    /// index expressions are lowered in order.  The lookup is
    /// monomorphic when it resolves through no interior alias and all
    /// its indices are monomorphic; it reads its register and whatever
    /// its indices read.
    #[verifier::rlimit(50)]
    pub fn from(node: &PT::LookupNode, ctx: &mut SyntaxContext) -> (r: Result<ST::LookupNode, SyntaxError>)
        requires
            old(ctx).wf(),
            rats_wf(exprs_fracs(node.indices)),
        ensures
            ctx_wf_frame(*old(ctx), *final(ctx)),
            match r {
                Ok(l) => {
                    let rf = the_ref(old(ctx).local_variables@, node.name@);
                    &&& is_bound(old(ctx).local_variables@, node.name@)
                    &&& l.register == rf.register
                    &&& l.indices@.len() == node.indices@.len()
                    &&& (forall|k: int|
                        0 <= k < l.indices@.len() ==> expr_lowered_shape(
                            node.indices@[k],
                            #[trigger] l.indices@[k],
                            old(ctx).local_variables@,
                        ))
                    &&& l.is_mono == (!rf.is_interior && (forall|k: int|
                        0 <= k < l.indices@.len() ==> ST::spec_expr_is_mono(#[trigger] l.indices@[k])))
                    &&& l.used_vars@ == seq![l.register] + exprs_used_vars(l.indices@)
                },
                Err(e) => e matches SyntaxError::UndefinedVariable { name: n } && !is_bound(
                    old(ctx).local_variables@,
                    n@,
                ) && names_has(lookup_names(*node), n@),
            },
        decreases *node,
    {
        let entry = match ctx.find_entry(node.name.as_str()) {
            Some(i) => ctx.local_variables[i].1,
            None => {
                proof {
                    assert(lookup_names(*node)[0] == node.name@);
                }
                return Err(SyntaxError::UndefinedVariable { name: node.name.clone() });
            },
        };
        let n = node.indices.len();
        let mut indices: Vec<ST::ExpressionNode> = Vec::new();
        let mut is_mono = !entry.is_interior;
        let mut used_vars: Vec<usize> = Vec::new();
        used_vars.push(entry.register);
        let mut i: usize = 0;
        while i < n
            invariant
                old(ctx).wf(),
                ctx.wf(),
                ctx_wf_frame(*old(ctx), *ctx),
                n == node.indices@.len(),
                0 <= i <= n,
                indices@.len() == i,
                rats_wf(exprs_fracs(node.indices)),
                forall|k: int|
                    0 <= k < i ==> expr_lowered_shape(
                        node.indices@[k],
                        #[trigger] indices@[k],
                        old(ctx).local_variables@,
                    ),
                entry == the_ref(old(ctx).local_variables@, node.name@),
                is_mono == (!entry.is_interior && (forall|k: int|
                    0 <= k < i ==> ST::spec_expr_is_mono(#[trigger] indices@[k]))),
                used_vars@ == seq![entry.register] + exprs_used_vars(indices@),
            decreases n - i,
        {
            proof {
                assert(decreases_to!(*node => node.indices));
                assert(decreases_to!(node.indices => node.indices@));
                assert(decreases_to!(node.indices@ => node.indices@[i as int]));
                lemma_exprs_fracs_member(node.indices, node.indices@.len() as int, i as int);
            }
            let idx = match ST::ExpressionNode::from(&node.indices[i], ctx) {
                Ok(e) => e,
                Err(e) => {
                    proof {
                        let n = e->UndefinedVariable_name;
                        lemma_exprs_names_member(
                            node.indices,
                            node.indices@.len() as int,
                            i as int,
                            n@,
                        );
                        lemma_names_concat(seq![node.name@], exprs_names(node.indices), n@);
                    }
                    return Err(e);
                },
            };
            is_mono = is_mono && ST::expr_is_mono(&idx);
            append_regs(&mut used_vars, ST::expr_used_vars(&idx));
            let ghost prev = indices@;
            indices.push(idx);
            proof {
                lemma_exprs_used_vars_upto_push(prev, idx, prev.len() as int);
                assert(forall|k: int| 0 <= k < prev.len() ==> indices@[k] == prev[k]);
                assert(indices@[prev.len() as int] == idx);
                assert(used_vars@ =~= seq![entry.register] + exprs_used_vars(indices@));
            }
            i += 1;
        }
        let result = ST::LookupNode { register: entry.register, indices, is_mono, used_vars };
        proof {
            let rf = the_ref(old(ctx).local_variables@, node.name@);
            assert(result.indices@ == indices@);
            assert(forall|k: int|
                0 <= k < result.indices@.len() ==> expr_lowered_shape(
                    node.indices@[k],
                    #[trigger] result.indices@[k],
                    old(ctx).local_variables@,
                ));
            assert(result.is_mono == (!rf.is_interior && (forall|k: int|
                0 <= k < result.indices@.len() ==> ST::spec_expr_is_mono(
                    #[trigger] result.indices@[k],
                ))));
        }
        Ok(result)
    }
}

impl ST::ExpressionNode {
    /// Lower an expression by its kind.
    pub fn from(node: &PT::ExpressionNode, ctx: &mut SyntaxContext) -> (r: Result<ST::ExpressionNode, SyntaxError>)
        requires
            old(ctx).wf(),
            rats_wf(expr_fracs(*node)),
        ensures
            ctx_wf_frame(*old(ctx), *final(ctx)),
            match r {
                Ok(e_out) => expr_lowered_shape(*node, e_out, old(ctx).local_variables@) && (
                *node matches PT::ExpressionNode::Fraction(f) ==> added_const(
                    val_views(old(ctx).consts@),
                    Val::Frac(f.value),
                    val_views(final(ctx).consts@),
                    e_out->Fraction_0.const_idx as int,
                )),
                Err(e) => e matches SyntaxError::UndefinedVariable { name: n } && !is_bound(
                    old(ctx).local_variables@,
                    n@,
                ) && names_has(expr_names(*node), n@),
            },
        decreases *node,
    {
        match node {
            PT::ExpressionNode::Fraction(valbox) => {
                proof {
                    assert(expr_fracs(*node) == seq![valbox.value]);
                    assert(rat_wf(expr_fracs(*node)[0]));
                }
                Ok(ST::ExpressionNode::Fraction(Box::new(ST::FractionNode::from(&**valbox, ctx))))
            },
            PT::ExpressionNode::Binop(valbox) => {
                proof {
                    assert(expr_fracs(*node) == expr_fracs(valbox.lhs) + expr_fracs(valbox.rhs));
                    lemma_rats_wf_split(expr_fracs(valbox.lhs), expr_fracs(valbox.rhs));
                }
                match ST::BinopNode::from(&**valbox, ctx) {
                    Ok(b) => Ok(ST::ExpressionNode::Binop(Box::new(b))),
                    Err(e) => Err(e),
                }
            },
            PT::ExpressionNode::ArrayLiteral(valbox) => {
                proof {
                    assert(expr_fracs(*node) == exprs_fracs(valbox.items));
                }
                match ST::ArrayLiteralNode::from(&**valbox, ctx) {
                    Ok(a) => Ok(ST::ExpressionNode::ArrayLiteral(Box::new(a))),
                    Err(e) => Err(e),
                }
            },
            PT::ExpressionNode::Lookup(valbox) => {
                proof {
                    assert(expr_fracs(*node) == exprs_fracs(valbox.indices));
                }
                match ST::LookupNode::from(&**valbox, ctx) {
                    Ok(l) => Ok(ST::ExpressionNode::Lookup(Box::new(l))),
                    Err(e) => Err(e),
                }
            },
        }
    }
}




/// The used-variable lists of the first `n` lowered expressions,
/// concatenated in order.
pub open spec fn exprs_used_vars_upto(es: Seq<ST::ExpressionNode>, n: int) -> Seq<usize>
    decreases n,
{
    if n <= 0 || n > es.len() {
        seq![]
    } else {
        exprs_used_vars_upto(es, n - 1) + ST::spec_expr_used_vars(es[n - 1])
    }
}

/// The used-variable lists of a sequence of lowered expressions,
/// concatenated in order.
pub open spec fn exprs_used_vars(es: Seq<ST::ExpressionNode>) -> Seq<usize> {
    exprs_used_vars_upto(es, es.len() as int)
}

/// `exprs_used_vars_upto` reads only the first `n` elements.
proof fn lemma_exprs_used_vars_upto_push(es: Seq<ST::ExpressionNode>, x: ST::ExpressionNode, n: int)
    requires
        0 <= n <= es.len(),
    ensures
        exprs_used_vars_upto(es.push(x), n) == exprs_used_vars_upto(es, n),
    decreases n,
{
    if n > 0 {
        lemma_exprs_used_vars_upto_push(es, x, n - 1);
        assert(es.push(x)[n - 1] == es[n - 1]);
    }
}

/// The inputs on which lowering a let or unlet fails, by error kind:
/// a duplicate declaration or a destroy while aliased is judged
/// against the incoming bindings; an undefined name is either the
/// unlet's own unbound name or a name the right-hand side reads that
/// the statement leaves unbound.
pub open spec fn let_unlet_err(node: PT::LetUnletNode, pre: SyntaxContext, e: SyntaxError) -> bool {
    match e {
        SyntaxError::UndefinedVariable { name: n } => if node.is_unlet {
            (n@ == node.name@ && !is_bound(pre.local_variables@, node.name@)) || (names_has(
                expr_names(node.rhs),
                n@,
            ) && (n@ == node.name@ || !is_bound(pre.local_variables@, n@)))
        } else {
            names_has(expr_names(node.rhs), n@) && n@ != node.name@ && !is_bound(
                pre.local_variables@,
                n@,
            )
        },
        SyntaxError::DuplicateDeclaration { name: n } => !node.is_unlet && n@ == node.name@
            && is_bound(pre.local_variables@, node.name@),
        SyntaxError::AliasedDestroy { name: n, register } => {
            let rf = the_ref(pre.local_variables@, node.name@);
            &&& node.is_unlet
            &&& n@ == node.name@
            &&& is_bound(pre.local_variables@, node.name@)
            &&& register == rf.register
            &&& (pre.variables@[rf.var as int].interiors@.len() > 0 || pre.variables@[rf.var as int].exteriors@.len() > 1)
        },
        SyntaxError::InvalidUnref { .. } => false,
        SyntaxError::RegisterLimit { name: n } => !node.is_unlet && n@ == node.name@
            && pre.num_registers == usize::MAX,
    }
}

/// The inputs on which lowering a ref or unref fails, by error kind:
/// duplicate declarations and invalid unrefs are judged against the
/// incoming bindings; an undefined name is the unref's own name or
/// target, or a name of the aliased lookup that the statement leaves
/// unbound.
pub open spec fn ref_unref_err(node: PT::RefUnrefNode, pre: SyntaxContext, e: SyntaxError) -> bool {
    match e {
        SyntaxError::DuplicateDeclaration { name: n } => !node.is_unref && n@ == node.name@
            && is_bound(pre.local_variables@, node.name@),
        SyntaxError::UndefinedVariable { name: n } => (node.is_unref && ((n@ == node.name@
            && !is_bound(pre.local_variables@, node.name@)) || (n@ == node.rhs.name@ && is_bound(
            pre.local_variables@,
            node.name@,
        ) && (node.rhs.name@ == node.name@ || !is_bound(pre.local_variables@, node.rhs.name@)))))
            || (names_has(lookup_names(node.rhs), n@) && (n@ == node.name@ || !is_bound(
            pre.local_variables@,
            n@,
        ))),
        SyntaxError::InvalidUnref { name: n, register } => {
            let rf = the_ref(pre.local_variables@, node.name@);
            &&& node.is_unref
            &&& n@ == node.name@
            &&& is_bound(pre.local_variables@, node.name@)
            &&& node.rhs.name@ != node.name@
            &&& is_bound(pre.local_variables@, node.rhs.name@)
            &&& register == rf.register
            &&& !unref_ok(pre, node.name@, node.rhs.name@, node.rhs.indices@.len() > 0)
        },
        SyntaxError::AliasedDestroy { .. } => false,
        SyntaxError::RegisterLimit { name: n } => !node.is_unref && n@ == node.name@
            && pre.num_registers == usize::MAX,
    }
}

impl ST::LetUnletNode {
    /// Lower a let or unlet: the name is created or destroyed in the
    /// context, then the right-hand side is lowered.  The statement is
    /// monomorphic when its right-hand side is.
    pub fn from(node: &PT::LetUnletNode, ctx: &mut SyntaxContext) -> (r: Result<ST::LetUnletNode, SyntaxError>)
        requires
            old(ctx).wf(),
            rats_wf(expr_fracs(node.rhs)),
        ensures
            final(ctx).wf(),
            stmt_ctx_evolution(*old(ctx), *final(ctx)),
            match r {
                Ok(st) => st.is_unlet == node.is_unlet && st.is_mono == ST::spec_expr_is_mono(
                    st.rhs,
                ) && expr_lowered_shape(node.rhs, st.rhs, final(ctx).local_variables@) && (if node.is_unlet {
                    removed_variable_binding(*old(ctx), *final(ctx), node.name@, st.register)
                } else {
                    !is_bound(old(ctx).local_variables@, node.name@) && created_variable_binding(
                        *old(ctx),
                        *final(ctx),
                        node.name@,
                        st.register,
                    )
                }),
                Err(e) => let_unlet_err(*node, *old(ctx), e),
            },
    {
        let register = if node.is_unlet {
            match ctx.remove_variable(node.name.as_str()) {
                Ok(reg) => reg,
                Err(e) => {
                    return Err(e);
                },
            }
        } else {
            if ctx.num_registers == usize::MAX {
                return Err(SyntaxError::RegisterLimit { name: node.name.clone() });
            }
            match ctx.create_variable(node.name.as_str()) {
                Ok(reg) => reg,
                Err(e) => {
                    return Err(e);
                },
            }
        };
        let rhs = match ST::ExpressionNode::from(&node.rhs, ctx) {
            Ok(e) => e,
            Err(e) => {
                return Err(e);
            },
        };
        let is_mono = ST::expr_is_mono(&rhs);
        Ok(ST::LetUnletNode { is_unlet: node.is_unlet, register, rhs, is_mono })
    }
}

impl ST::RefUnrefNode {
    /// Lower a ref or unref: the alias is introduced or retired in the
    /// context, then the aliased lookup is lowered against the updated
    /// bindings.  Retiring an alias that held a register of its own
    /// (an interior alias) releases that register back to the pool.
    #[verifier::rlimit(50)]
    pub fn from(node: &PT::RefUnrefNode, ctx: &mut SyntaxContext) -> (r: Result<ST::RefUnrefNode, SyntaxError>)
        requires
            old(ctx).wf(),
            rats_wf(exprs_fracs(node.rhs.indices)),
        ensures
            final(ctx).wf(),
            stmt_ctx_evolution(*old(ctx), *final(ctx)),
            match r {
                Ok(st) => st.is_unref == node.is_unref && st.is_mono == st.rhs.is_mono
                    && is_bound(final(ctx).local_variables@, node.rhs.name@) && st.rhs.register
                    == the_ref(final(ctx).local_variables@, node.rhs.name@).register
                    && st.rhs.indices@.len() == node.rhs.indices@.len() && (forall|k: int|
                    0 <= k < st.rhs.indices@.len() ==> expr_lowered_shape(
                        node.rhs.indices@[k],
                        #[trigger] st.rhs.indices@[k],
                        final(ctx).local_variables@,
                    )) && (if node.is_unref {
                    let rf = the_ref(old(ctx).local_variables@, node.name@);
                    &&& is_bound(old(ctx).local_variables@, node.name@)
                    &&& node.rhs.name@ != node.name@
                    &&& is_bound(old(ctx).local_variables@, node.rhs.name@)
                    &&& unref_ok(*old(ctx), node.name@, node.rhs.name@, node.rhs.indices@.len() > 0)
                    &&& removed_ref_core(*old(ctx), *final(ctx), node.name@, st.register)
                    &&& final(ctx).free_registers@ == (if rf.is_interior {
                        old(ctx).free_registers@.push(rf.register)
                    } else {
                        old(ctx).free_registers@
                    })
                } else {
                    !is_bound(old(ctx).local_variables@, node.name@) && created_ref_binding(
                        *old(ctx),
                        *final(ctx),
                        node.name@,
                        node.rhs.name@,
                        node.rhs.indices@.len() > 0,
                        st.register,
                    )
                }),
                Err(e) => ref_unref_err(*node, *old(ctx), e),
            },
    {
        let register = if node.is_unref {
            let was_interior = match ctx.find_entry(node.name.as_str()) {
                Some(i) => ctx.local_variables[i].1.is_interior,
                None => false,
            };
            let reg = match ctx.remove_ref(node.name.as_str(), &node.rhs) {
                Ok(reg) => reg,
                Err(e) => {
                    return Err(e);
                },
            };
            if was_interior {
                ctx.release_register(reg);
            }
            reg
        } else {
            if ctx.num_registers == usize::MAX {
                return Err(SyntaxError::RegisterLimit { name: node.name.clone() });
            }
            match ctx.create_ref(node.name.as_str(), &node.rhs) {
                Ok(reg) => reg,
                Err(e) => {
                    proof {
                        assert(lookup_names(node.rhs)[0] == node.rhs.name@);
                    }
                    return Err(e);
                },
            }
        };
        let ghost mid = *ctx;
        let rhs = match ST::LookupNode::from(&node.rhs, ctx) {
            Ok(l) => l,
            Err(e) => {
                proof {
                    let n = e->UndefinedVariable_name;
                    let es0 = old(ctx).local_variables@;
                    if n@ != node.name@ && is_bound(es0, n@) {
                        let w = choose|w: int| 0 <= w < es0.len() && es0[w].0@ == n@;
                        if !node.is_unref {
                            assert(mid.local_variables@.drop_last() == es0);
                            assert(mid.local_variables@[w] == es0[w]);
                        } else {
                            let i0 = index_of(es0, node.name@);
                            es0.remove_ensures(i0);
                            assert(es0[i0].0@ == node.name@);
                            assert(w != i0);
                            let w2: int = if w < i0 {
                                w
                            } else {
                                w - 1
                            };
                            assert(mid.local_variables@[w2] == es0[w]);
                        }
                        assert(is_bound(mid.local_variables@, n@));
                    }
                }
                return Err(e);
            },
        };
        let is_mono = rhs.is_mono;
        Ok(ST::RefUnrefNode { is_unref: node.is_unref, register, rhs, is_mono })
    }
}

impl SyntaxContext {
    /// Return a register that no binding occupies to the free pool.
    pub fn release_register(&mut self, reg: usize)
        requires
            old(self).wf(),
            reg < old(self).num_registers,
            !is_free(old(self).free_registers@, reg),
            forall|j: int|
                0 <= j < old(self).local_variables@.len() ==> (#[trigger] old(
                    self,
                ).local_variables@[j].1).register != reg,
        ensures
            final(self).wf(),
            final(self).free_registers@ == old(self).free_registers@.push(reg),
            final(self).local_variables == old(self).local_variables,
            final(self).variables == old(self).variables,
            final(self).num_registers == old(self).num_registers,
            final(self).consts == old(self).consts,
            final(self).func_names == old(self).func_names,
    {
        self.free_registers.push(reg);
        proof {
            let fr = self.free_registers@;
            let fr0 = old(self).free_registers@;
            assert forall|a: int, b: int| 0 <= a < b < fr.len() implies fr[a] != fr[b] by {
                if b == fr.len() - 1 {
                    assert(!is_free(fr0, reg));
                    assert(fr[a] == fr0[a]);
                }
            }
        }
    }
}

impl ST::ModopNode {
    /// Lower a compound assignment: the target lookup, then the
    /// right-hand side; the operator is kept.
    pub fn from(node: &PT::ModopNode, ctx: &mut SyntaxContext) -> (r: Result<ST::ModopNode, SyntaxError>)
        requires
            old(ctx).wf(),
            rats_wf(exprs_fracs(node.lookup.indices)),
            rats_wf(expr_fracs(node.rhs)),
        ensures
            ctx_wf_frame(*old(ctx), *final(ctx)),
            match r {
                Ok(st) => {
                    &&& st.op == node.op
                    &&& is_bound(old(ctx).local_variables@, node.lookup.name@)
                    &&& st.lookup.register == the_ref(
                        old(ctx).local_variables@,
                        node.lookup.name@,
                    ).register
                    &&& st.lookup.indices@.len() == node.lookup.indices@.len()
                    &&& (forall|k: int|
                        0 <= k < st.lookup.indices@.len() ==> expr_lowered_shape(
                            node.lookup.indices@[k],
                            #[trigger] st.lookup.indices@[k],
                            old(ctx).local_variables@,
                        ))
                    &&& expr_lowered_shape(node.rhs, st.rhs, old(ctx).local_variables@)
                    &&& st.is_mono == (st.lookup.is_mono && ST::spec_expr_is_mono(st.rhs))
                },
                Err(e) => e matches SyntaxError::UndefinedVariable { name: n } && !is_bound(
                    old(ctx).local_variables@,
                    n@,
                ) && names_has(lookup_names(node.lookup) + expr_names(node.rhs), n@),
            },
    {
        let lookup = match ST::LookupNode::from(&node.lookup, ctx) {
            Ok(l) => l,
            Err(e) => {
                proof {
                    let n = e->UndefinedVariable_name;
                    lemma_names_concat(lookup_names(node.lookup), expr_names(node.rhs), n@);
                }
                return Err(e);
            },
        };
        let rhs = match ST::ExpressionNode::from(&node.rhs, ctx) {
            Ok(e) => e,
            Err(e) => {
                proof {
                    let n = e->UndefinedVariable_name;
                    lemma_names_concat(lookup_names(node.lookup), expr_names(node.rhs), n@);
                }
                return Err(e);
            },
        };
        let is_mono = lookup.is_mono && ST::expr_is_mono(&rhs);
        Ok(ST::ModopNode { lookup, op: node.op, rhs, is_mono })
    }
}

impl ST::CatchNode {
    /// Lower a catch: its single abort-condition expression.
    pub fn from(node: &PT::CatchNode, ctx: &mut SyntaxContext) -> (r: Result<ST::CatchNode, SyntaxError>)
        requires
            old(ctx).wf(),
            rats_wf(expr_fracs(node.expr)),
        ensures
            ctx_wf_frame(*old(ctx), *final(ctx)),
            r matches Ok(st) ==> expr_lowered_shape(node.expr, st.expr, old(ctx).local_variables@),
            r matches Err(e) ==> e matches SyntaxError::UndefinedVariable { name: n } && !is_bound(
                old(ctx).local_variables@,
                n@,
            ) && names_has(expr_names(node.expr), n@),
        decreases *node,
    {
        match ST::ExpressionNode::from(&node.expr, ctx) {
            Ok(expr) => Ok(ST::CatchNode { expr }),
            Err(e) => Err(e),
        }
    }
}

impl ST::IfNode {
    /// Lower a reversible branch: the forward guard, the backward
    /// guard a reverse traversal re-checks, then both branch bodies.
    pub fn from(node: &PT::IfNode, ctx: &mut SyntaxContext) -> (r: Result<ST::IfNode, SyntaxError>)
        requires
            old(ctx).wf(),
            rats_wf(expr_fracs(node.fwd_expr)),
            rats_wf(expr_fracs(node.bkwd_expr)),
            rats_wf(stmts_fracs(node.if_stmts)),
            rats_wf(stmts_fracs(node.else_stmts)),
        ensures
            final(ctx).wf(),
            stmt_ctx_evolution(*old(ctx), *final(ctx)),
            r matches Err(e) ==> (e matches SyntaxError::UndefinedVariable { name: n } && !is_bound(
                old(ctx).local_variables@,
                n@,
            ) && names_has(expr_names(node.fwd_expr) + expr_names(node.bkwd_expr), n@))
                || node.if_stmts@.len() > 0 || node.else_stmts@.len() > 0,
            r matches Ok(st) ==> {
                &&& st.if_stmts@.len() == node.if_stmts@.len()
                &&& st.else_stmts@.len() == node.else_stmts@.len()
                &&& expr_lowered_shape(node.fwd_expr, st.fwd_expr, old(ctx).local_variables@)
                &&& expr_lowered_shape(node.bkwd_expr, st.bkwd_expr, old(ctx).local_variables@)
                &&& (forall|k: int|
                    0 <= k < st.if_stmts@.len() ==> stmt_lowered_kind(
                        node.if_stmts@[k],
                        #[trigger] st.if_stmts@[k],
                    ))
                &&& (forall|k: int|
                    0 <= k < st.else_stmts@.len() ==> stmt_lowered_kind(
                        node.else_stmts@[k],
                        #[trigger] st.else_stmts@[k],
                    ))
            },
        decreases *node,
    {
        let fwd_expr = match ST::ExpressionNode::from(&node.fwd_expr, ctx) {
            Ok(e) => e,
            Err(e) => {
                proof {
                    let n = e->UndefinedVariable_name;
                    lemma_names_concat(expr_names(node.fwd_expr), expr_names(node.bkwd_expr), n@);
                }
                return Err(e);
            },
        };
        let bkwd_expr = match ST::ExpressionNode::from(&node.bkwd_expr, ctx) {
            Ok(e) => e,
            Err(e) => {
                proof {
                    let n = e->UndefinedVariable_name;
                    lemma_names_concat(expr_names(node.fwd_expr), expr_names(node.bkwd_expr), n@);
                }
                return Err(e);
            },
        };
        let mut is_mono = ST::expr_is_mono(&fwd_expr) && ST::expr_is_mono(&bkwd_expr);
        let n1 = node.if_stmts.len();
        let mut if_stmts: Vec<ST::StatementNode> = Vec::new();
        let mut i: usize = 0;
        while i < n1
            invariant
                ctx.wf(),
                stmt_ctx_evolution(*old(ctx), *ctx),
                n1 == node.if_stmts@.len(),
                0 <= i <= n1,
                if_stmts@.len() == i,
                rats_wf(stmts_fracs(node.if_stmts)),
                expr_lowered_shape(node.fwd_expr, fwd_expr, old(ctx).local_variables@),
                expr_lowered_shape(node.bkwd_expr, bkwd_expr, old(ctx).local_variables@),
                forall|k: int|
                    0 <= k < i ==> stmt_lowered_kind(node.if_stmts@[k], #[trigger] if_stmts@[k]),
            decreases n1 - i,
        {
            proof {
                assert(decreases_to!(*node => node.if_stmts));
                assert(decreases_to!(node.if_stmts => node.if_stmts@));
                assert(decreases_to!(node.if_stmts@ => node.if_stmts@[i as int]));
                lemma_stmts_fracs_member(node.if_stmts, node.if_stmts@.len() as int, i as int);
            }
            let ghost pre = *ctx;
            let st = match ST::StatementNode::from(&node.if_stmts[i], ctx) {
                Ok(s) => s,
                Err(e) => {
                    return Err(e);
                },
            };
            proof {
                lemma_stmt_evolution_trans(*old(ctx), pre, *ctx);
            }
            is_mono = is_mono && ST::stmt_is_mono(&st);
            if_stmts.push(st);
            i += 1;
        }
        let n2 = node.else_stmts.len();
        let mut else_stmts: Vec<ST::StatementNode> = Vec::new();
        let mut j: usize = 0;
        while j < n2
            invariant
                ctx.wf(),
                stmt_ctx_evolution(*old(ctx), *ctx),
                n2 == node.else_stmts@.len(),
                0 <= j <= n2,
                else_stmts@.len() == j,
                rats_wf(stmts_fracs(node.else_stmts)),
                expr_lowered_shape(node.fwd_expr, fwd_expr, old(ctx).local_variables@),
                expr_lowered_shape(node.bkwd_expr, bkwd_expr, old(ctx).local_variables@),
                if_stmts@.len() == node.if_stmts@.len(),
                forall|k: int|
                    0 <= k < if_stmts@.len() ==> stmt_lowered_kind(
                        node.if_stmts@[k],
                        #[trigger] if_stmts@[k],
                    ),
                forall|k: int|
                    0 <= k < j ==> stmt_lowered_kind(node.else_stmts@[k], #[trigger] else_stmts@[k]),
            decreases n2 - j,
        {
            proof {
                assert(decreases_to!(*node => node.else_stmts));
                assert(decreases_to!(node.else_stmts => node.else_stmts@));
                assert(decreases_to!(node.else_stmts@ => node.else_stmts@[j as int]));
                lemma_stmts_fracs_member(node.else_stmts, node.else_stmts@.len() as int, j as int);
            }
            let ghost pre = *ctx;
            let st = match ST::StatementNode::from(&node.else_stmts[j], ctx) {
                Ok(s) => s,
                Err(e) => {
                    return Err(e);
                },
            };
            proof {
                lemma_stmt_evolution_trans(*old(ctx), pre, *ctx);
            }
            is_mono = is_mono && ST::stmt_is_mono(&st);
            else_stmts.push(st);
            j += 1;
        }
        Ok(ST::IfNode { fwd_expr, if_stmts, else_stmts, bkwd_expr, is_mono })
    }
}

/// Statement-lowering context evolution composes.
proof fn lemma_stmt_evolution_trans(a: SyntaxContext, b: SyntaxContext, c: SyntaxContext)
    requires
        stmt_ctx_evolution(a, b),
        stmt_ctx_evolution(b, c),
    ensures
        stmt_ctx_evolution(a, c),
{
    let va = val_views(a.consts@);
    let vb = val_views(b.consts@);
    let vc = val_views(c.consts@);
    assert forall|k: int| 0 <= k < va.len() implies va[k] == vc[k] by {
        assert(va[k] == vb[k]);
        assert(vb[k] == vc[k]);
    }
}

impl ST::StatementNode {
    /// Lower a statement by its kind.
    pub fn from(node: &PT::StatementNode, ctx: &mut SyntaxContext) -> (r: Result<ST::StatementNode, SyntaxError>)
        requires
            old(ctx).wf(),
            rats_wf(stmt_fracs(*node)),
        ensures
            final(ctx).wf(),
            stmt_ctx_evolution(*old(ctx), *final(ctx)),
            match r {
                Ok(s) => stmt_lowered_kind(*node, s),
                Err(e) => match *node {
                    PT::StatementNode::LetUnlet(b) => let_unlet_err(*b, *old(ctx), e),
                    PT::StatementNode::RefUnref(b) => ref_unref_err(*b, *old(ctx), e),
                    PT::StatementNode::Modop(b) => e matches SyntaxError::UndefinedVariable {
                        name: n,
                    } && !is_bound(old(ctx).local_variables@, n@) && names_has(
                        lookup_names(b.lookup) + expr_names(b.rhs),
                        n@,
                    ),
                    PT::StatementNode::If(b) => (e matches SyntaxError::UndefinedVariable {
                        name: n,
                    } && !is_bound(old(ctx).local_variables@, n@) && names_has(
                        expr_names(b.fwd_expr) + expr_names(b.bkwd_expr),
                        n@,
                    )) || b.if_stmts@.len() > 0 || b.else_stmts@.len() > 0,
                    PT::StatementNode::Catch(b) => e matches SyntaxError::UndefinedVariable {
                        name: n,
                    } && !is_bound(old(ctx).local_variables@, n@) && names_has(
                        expr_names(b.expr),
                        n@,
                    ),
                },
            },
        decreases *node,
    {
        match node {
            PT::StatementNode::LetUnlet(valbox) => {
                proof {
                    assert(stmt_fracs(*node) == expr_fracs(valbox.rhs));
                }
                match ST::LetUnletNode::from(&**valbox, ctx) {
                    Ok(s) => Ok(ST::StatementNode::LetUnlet(Box::new(s))),
                    Err(e) => Err(e),
                }
            },
            PT::StatementNode::RefUnref(valbox) => {
                proof {
                    assert(stmt_fracs(*node) == exprs_fracs(valbox.rhs.indices));
                }
                match ST::RefUnrefNode::from(&**valbox, ctx) {
                    Ok(s) => Ok(ST::StatementNode::RefUnref(Box::new(s))),
                    Err(e) => Err(e),
                }
            },
            PT::StatementNode::Modop(valbox) => {
                proof {
                    assert(stmt_fracs(*node) == exprs_fracs(valbox.lookup.indices) + expr_fracs(
                        valbox.rhs,
                    ));
                    lemma_rats_wf_split(exprs_fracs(valbox.lookup.indices), expr_fracs(valbox.rhs));
                }
                match ST::ModopNode::from(&**valbox, ctx) {
                    Ok(s) => Ok(ST::StatementNode::Modop(Box::new(s))),
                    Err(e) => Err(e),
                }
            },
            PT::StatementNode::If(valbox) => {
                proof {
                    assert(stmt_fracs(*node) == expr_fracs(valbox.fwd_expr) + expr_fracs(
                        valbox.bkwd_expr,
                    ) + stmts_fracs(valbox.if_stmts) + stmts_fracs(valbox.else_stmts));
                    lemma_rats_wf_split(
                        expr_fracs(valbox.fwd_expr) + expr_fracs(valbox.bkwd_expr) + stmts_fracs(
                            valbox.if_stmts,
                        ),
                        stmts_fracs(valbox.else_stmts),
                    );
                    lemma_rats_wf_split(
                        expr_fracs(valbox.fwd_expr) + expr_fracs(valbox.bkwd_expr),
                        stmts_fracs(valbox.if_stmts),
                    );
                    lemma_rats_wf_split(expr_fracs(valbox.fwd_expr), expr_fracs(valbox.bkwd_expr));
                }
                match ST::IfNode::from(&**valbox, ctx) {
                    Ok(s) => Ok(ST::StatementNode::If(Box::new(s))),
                    Err(e) => Err(e),
                }
            },
            PT::StatementNode::Catch(valbox) => {
                proof {
                    assert(stmt_fracs(*node) == expr_fracs(valbox.expr));
                }
                match ST::CatchNode::from(&**valbox, ctx) {
                    Ok(s) => Ok(ST::StatementNode::Catch(Box::new(s))),
                    Err(e) => Err(e),
                }
            },
        }
    }
}


impl ST::FunctionNode {
    /// Lower one function against a fresh context: the borrow and
    /// steal parameters are created first, in declaration order, so
    /// they occupy the lowest registers; the body is lowered in
    /// order; the return parameters must be bound when the body ends,
    /// and their registers are recorded.  The context's deduplicated
    /// constant pool and register high-water mark become part of the
    /// lowered function.
    pub fn from(node: &PT::FunctionNode, func_names: &Vec<String>) -> (r: Result<ST::FunctionNode, SyntaxError>)
        requires
            rats_wf(stmts_fracs(node.stmts)),
        ensures
            match r {
                Ok(f) => {
                    &&& f.stmts@.len() == node.stmts@.len()
                    &&& (forall|k: int|
                        0 <= k < f.stmts@.len() ==> stmt_lowered_kind(
                            node.stmts@[k],
                            #[trigger] f.stmts@[k],
                        ))
                    &&& vals_wf(val_views(f.consts@))
                    &&& f.borrow_registers@.len() == node.borrow_params@.len()
                    &&& f.steal_registers@.len() == node.steal_params@.len()
                    &&& f.return_registers@.len() == node.return_params@.len()
                    &&& (forall|k: int|
                        0 <= k < f.borrow_registers@.len() ==> #[trigger] f.borrow_registers@[k]
                            == k)
                    &&& (forall|k: int|
                        0 <= k < f.steal_registers@.len() ==> #[trigger] f.steal_registers@[k]
                            == node.borrow_params@.len() + k)
                },
                Err(e) => match e {
                    SyntaxError::AliasedDestroy { .. } => node.stmts@.len() > 0,
                    SyntaxError::InvalidUnref { .. } => node.stmts@.len() > 0,
                    _ => true,
                },
            },
    {
        let mut ctx = SyntaxContext::new(func_names);
        let mut borrow_registers: Vec<usize> = Vec::new();
        let nb = node.borrow_params.len();
        let mut i: usize = 0;
        while i < nb
            invariant
                ctx.wf(),
                nb == node.borrow_params@.len(),
                0 <= i <= nb,
                borrow_registers@.len() == i,
                ctx.free_registers@.len() == 0,
                ctx.num_registers == i,
                forall|k: int| 0 <= k < i ==> #[trigger] borrow_registers@[k] == k,
            decreases nb - i,
        {
            if ctx.num_registers == usize::MAX {
                return Err(SyntaxError::RegisterLimit { name: node.borrow_params[i].clone() });
            }
            let reg = match ctx.create_variable(node.borrow_params[i].as_str()) {
                Ok(reg) => reg,
                Err(e) => {
                    return Err(e);
                },
            };
            borrow_registers.push(reg);
            i += 1;
        }
        let mut steal_registers: Vec<usize> = Vec::new();
        let ns = node.steal_params.len();
        let mut j: usize = 0;
        while j < ns
            invariant
                ctx.wf(),
                ns == node.steal_params@.len(),
                0 <= j <= ns,
                steal_registers@.len() == j,
                nb == node.borrow_params@.len(),
                borrow_registers@.len() == nb,
                forall|k: int| 0 <= k < nb ==> #[trigger] borrow_registers@[k] == k,
                ctx.free_registers@.len() == 0,
                ctx.num_registers == nb + j,
                forall|k: int| 0 <= k < j ==> #[trigger] steal_registers@[k] == nb + k,
            decreases ns - j,
        {
            if ctx.num_registers == usize::MAX {
                return Err(SyntaxError::RegisterLimit { name: node.steal_params[j].clone() });
            }
            let reg = match ctx.create_variable(node.steal_params[j].as_str()) {
                Ok(reg) => reg,
                Err(e) => {
                    return Err(e);
                },
            };
            steal_registers.push(reg);
            j += 1;
        }
        let mut stmts: Vec<ST::StatementNode> = Vec::new();
        let nst = node.stmts.len();
        let mut k: usize = 0;
        while k < nst
            invariant
                ctx.wf(),
                nst == node.stmts@.len(),
                0 <= k <= nst,
                stmts@.len() == k,
                forall|x: int|
                    0 <= x < k ==> stmt_lowered_kind(node.stmts@[x], #[trigger] stmts@[x]),
                rats_wf(stmts_fracs(node.stmts)),
            decreases nst - k,
        {
            proof {
                lemma_stmts_fracs_member(node.stmts, node.stmts@.len() as int, k as int);
            }
            let st = match ST::StatementNode::from(&node.stmts[k], &mut ctx) {
                Ok(s) => s,
                Err(e) => {
                    return Err(e);
                },
            };
            stmts.push(st);
            k += 1;
        }
        let mut return_registers: Vec<usize> = Vec::new();
        let nr = node.return_params.len();
        let mut m: usize = 0;
        while m < nr
            invariant
                ctx.wf(),
                nr == node.return_params@.len(),
                0 <= m <= nr,
                return_registers@.len() == m,
            decreases nr - m,
        {
            let reg = match ctx.lookup_local(node.return_params[m].as_str()) {
                Ok(reg) => reg,
                Err(e) => {
                    return Err(e);
                },
            };
            return_registers.push(reg);
            m += 1;
        }
        Ok(ST::FunctionNode {
            stmts,
            consts: ctx.consts,
            num_registers: ctx.num_registers,
            borrow_registers,
            steal_registers,
            return_registers,
        })
    }
}

/// Lower a whole module.  The function-name table is built first, in
/// declaration order, so every function can resolve calls to any
/// other function regardless of declaration order; each function is
/// then lowered against a fresh context of its own.  The entry point
/// is the first function named `main`, if any; the global
/// initialization function of this core is empty.
pub fn check_syntax(module: PT::Module) -> (r: Result<ST::Module, SyntaxError>)
    requires
        forall|i: int|
            0 <= i < module.functions@.len() ==> rats_wf(
                stmts_fracs((#[trigger] module.functions@[i]).stmts),
            ),
    ensures
        match r {
            Ok(m) => {
                &&& m.functions@.len() == module.functions@.len()
                &&& (forall|i: int|
                    0 <= i < m.functions@.len() ==> {
                        let f = #[trigger] m.functions@[i];
                        let p = module.functions@[i];
                        &&& f.stmts@.len() == p.stmts@.len()
                        &&& (forall|k: int|
                            0 <= k < f.stmts@.len() ==> stmt_lowered_kind(
                                p.stmts@[k],
                                #[trigger] f.stmts@[k],
                            ))
                        &&& vals_wf(val_views(f.consts@))
                        &&& f.borrow_registers@.len() == p.borrow_params@.len()
                        &&& f.steal_registers@.len() == p.steal_params@.len()
                        &&& f.return_registers@.len() == p.return_params@.len()
                        &&& (forall|k: int|
                            0 <= k < f.borrow_registers@.len() ==> #[trigger] f.borrow_registers@[k]
                                == k)
                        &&& (forall|k: int|
                            0 <= k < f.steal_registers@.len() ==> #[trigger] f.steal_registers@[k]
                                == p.borrow_params@.len() + k)
                    })
                &&& match m.main_idx {
                    Some(i) => i < module.functions@.len() && module.functions@[i as int].name@
                        == "main"@ && (forall|k: int|
                        0 <= k < i ==> (#[trigger] module.functions@[k]).name@ != "main"@),
                    None => forall|k: int|
                        0 <= k < module.functions@.len() ==> (#[trigger] module.functions@[k]).name@
                            != "main"@,
                }
            },
            Err(e) => module.functions@.len() > 0 && ((e matches SyntaxError::AliasedDestroy {
                ..
            } || e matches SyntaxError::InvalidUnref { .. }) ==> exists|i: int|
                0 <= i < module.functions@.len() && (#[trigger] module.functions@[i]).stmts@.len()
                    > 0),
        },
{
    let nf = module.functions.len();
    let mut func_names: Vec<String> = Vec::new();
    let mut i: usize = 0;
    while i < nf
        invariant
            nf == module.functions@.len(),
            0 <= i <= nf,
        decreases nf - i,
    {
        let name = module.functions[i].name.clone();
        func_names.push(name);
        i += 1;
    }
    let mut functions: Vec<ST::FunctionNode> = Vec::new();
    let mut main_idx: Option<usize> = None;
    let mut j: usize = 0;
    while j < nf
        invariant
            nf == module.functions@.len(),
            0 <= j <= nf,
            functions@.len() == j,
            forall|i: int|
                0 <= i < module.functions@.len() ==> rats_wf(
                    stmts_fracs((#[trigger] module.functions@[i]).stmts),
                ),
            forall|i: int|
                0 <= i < j ==> {
                    let f = #[trigger] functions@[i];
                    let p = module.functions@[i];
                    &&& f.stmts@.len() == p.stmts@.len()
                    &&& (forall|k: int|
                        0 <= k < f.stmts@.len() ==> stmt_lowered_kind(
                            p.stmts@[k],
                            #[trigger] f.stmts@[k],
                        ))
                    &&& vals_wf(val_views(f.consts@))
                    &&& f.borrow_registers@.len() == p.borrow_params@.len()
                    &&& f.steal_registers@.len() == p.steal_params@.len()
                    &&& f.return_registers@.len() == p.return_params@.len()
                    &&& (forall|k: int|
                        0 <= k < f.borrow_registers@.len() ==> #[trigger] f.borrow_registers@[k]
                            == k)
                    &&& (forall|k: int|
                        0 <= k < f.steal_registers@.len() ==> #[trigger] f.steal_registers@[k]
                            == p.borrow_params@.len() + k)
                },
            match main_idx {
                Some(x) => x < j && module.functions@[x as int].name@ == "main"@ && (forall|k: int|
                    0 <= k < x ==> (#[trigger] module.functions@[k]).name@ != "main"@),
                None => forall|k: int|
                    0 <= k < j ==> (#[trigger] module.functions@[k]).name@ != "main"@,
            },
        decreases nf - j,
    {
        let f = match ST::FunctionNode::from(&module.functions[j], &func_names) {
            Ok(f) => f,
            Err(e) => {
                proof {
                    if e matches SyntaxError::AliasedDestroy { .. } || e matches
                        SyntaxError::InvalidUnref { .. } {
                        assert(module.functions@[j as int].stmts@.len() > 0);
                        assert(exists|i: int|
                            0 <= i < module.functions@.len() && (
                            #[trigger] module.functions@[i]).stmts@.len() > 0);
                    }
                }
                return Err(e);
            },
        };
        functions.push(f);
        if main_idx.is_none() && str_eq(&module.functions[j].name, "main") {
            main_idx = Some(j);
        }
        j += 1;
    }
    let global_func = ST::FunctionNode {
        stmts: Vec::new(),
        consts: Vec::new(),
        num_registers: 0,
        borrow_registers: Vec::new(),
        steal_registers: Vec::new(),
        return_registers: Vec::new(),
    };
    proof {
        assert forall|i: int| 0 <= i < functions@.len() implies {
            let f = #[trigger] functions@[i];
            let p = module.functions@[i];
            &&& f.stmts@.len() == p.stmts@.len()
            &&& (forall|k: int|
                0 <= k < f.stmts@.len() ==> stmt_lowered_kind(p.stmts@[k], #[trigger] f.stmts@[k]))
            &&& vals_wf(val_views(f.consts@))
            &&& f.borrow_registers@.len() == p.borrow_params@.len()
            &&& f.steal_registers@.len() == p.steal_params@.len()
            &&& f.return_registers@.len() == p.return_params@.len()
            &&& (forall|k: int|
                0 <= k < f.borrow_registers@.len() ==> #[trigger] f.borrow_registers@[k] == k)
            &&& (forall|k: int|
                0 <= k < f.steal_registers@.len() ==> #[trigger] f.steal_registers@[k]
                    == p.borrow_params@.len() + k)
        } by {}
    }
    Ok(ST::Module { functions, main_idx, global_func })
}

} // verus!
