//! The module that circuits are emitted into.
use vstd::prelude::*;

use crate::llzk::ir;
use crate::llzk::ir::ConstType;
use crate::llzk::ir::Op;
use crate::llzk::ir::ValueType;
use crate::llzk::vars::MemberDef;
use crate::llzk::vars::StructBuilder;

verus! {

/// The body of a function: constants at its front, then its operations.
#[derive(Debug)]
pub struct FunctionBody {
    pub arguments: Vec<ValueType>,
    pub prologue: Vec<(ConstType, u64)>,
    pub ops: Vec<Op>,
}

/// Whether a body defines what it uses: every constant stands in its prologue, once, and every other
/// value is an argument, the struct that it constructs, or the result of an earlier operation.
pub open spec fn is_closed(b: FunctionBody, constructs: bool) -> bool {
    ir::defines_its_values(b.arguments@, b.prologue@, b.ops@, constructs)
}

/// A struct with its two functions.
#[derive(Debug)]
pub struct StructDef {
    pub name: String,
    pub members: Vec<MemberDef>,
    pub compute: FunctionBody,
    pub constrain: FunctionBody,
}

/// A private function without a body, for the runtime to provide.
#[derive(Debug)]
pub struct FunctionDecl {
    pub name: String,
    pub inputs: Vec<ValueType>,
    pub results: Vec<ValueType>,
}

/// A module under construction.
#[derive(Debug)]
pub struct ModuleEnv {
    pub structs: Vec<StructDef>,
    pub functions: Vec<FunctionDecl>,
}

/// Whether an operation calls a function.
pub open spec fn calls(op: Op, callee: Seq<char>) -> bool {
    op matches Op::Call(name, _, _) && name@ == callee
}

/// Whether a list of operations calls a function.
pub open spec fn some_call(ops: Seq<Op>, callee: Seq<char>) -> bool {
    exists|i: int| 0 <= i < ops.len() && calls(#[trigger] ops[i], callee)
}

/// Whether a function of a struct calls a function.
pub open spec fn struct_calls(s: StructDef, callee: Seq<char>) -> bool {
    some_call(s.compute.ops@, callee) || some_call(s.constrain.ops@, callee)
}

/// Whether some function of some struct calls a function.
pub open spec fn module_calls(structs: Seq<StructDef>, callee: Seq<char>) -> bool {
    exists|i: int| 0 <= i < structs.len() && struct_calls(#[trigger] structs[i], callee)
}

/// Whether a function is declared.
pub open spec fn declares(functions: Seq<FunctionDecl>, name: Seq<char>) -> bool {
    exists|i: int| 0 <= i < functions.len() && (#[trigger] functions[i]).name@ == name
}

/// The name and the types of a declaration.
pub open spec fn decl_view(d: FunctionDecl) -> (Seq<char>, Seq<ValueType>, Seq<ValueType>) {
    (d.name@, d.inputs@, d.results@)
}

/// The names and the types of declarations.
pub open spec fn decl_views(ds: Seq<FunctionDecl>) -> Seq<
    (Seq<char>, Seq<ValueType>, Seq<ValueType>),
> {
    ds.map_values(|d: FunctionDecl| decl_view(d))
}

/// The declarations after one more, which is left out where its name is taken.
pub open spec fn with_declaration(
    ds: Seq<(Seq<char>, Seq<ValueType>, Seq<ValueType>)>,
    name: Seq<char>,
    inputs: Seq<ValueType>,
    results: Seq<ValueType>,
) -> Seq<(Seq<char>, Seq<ValueType>, Seq<ValueType>)> {
    if exists|i: int| 0 <= i < ds.len() && (#[trigger] ds[i]).0 == name {
        ds
    } else {
        ds.push((name, inputs, results))
    }
}

fn ops_contain_call_to(ops: &Vec<Op>, callee: &String) -> (r: bool)
    ensures
        r == some_call(ops@, callee@),
{
    let mut i: usize = 0;
    while i < ops.len()
        invariant
            i <= ops@.len(),
            forall|j: int| 0 <= j < i ==> !calls(#[trigger] ops@[j], callee@),
        decreases ops@.len() - i,
    {
        if let Op::Call(name, _, _) = &ops[i] {
            if *name == *callee {
                assert(calls(ops@[i as int], callee@));
                return true;
            }
        }
        i = i + 1;
    }
    false
}

impl StructBuilder {
    /// The struct with its two functions.
    pub fn build(self, compute: FunctionBody, constrain: FunctionBody) -> (r: StructDef)
        ensures
            r == (StructDef { name: self.name, members: self.members, compute, constrain }),
    {
        StructDef { name: self.name, members: self.members, compute, constrain }
    }

    /// Adds the struct with its two functions to a module.
    pub fn build_in_module(
        self,
        env: &mut ModuleEnv,
        compute: FunctionBody,
        constrain: FunctionBody,
    )
        ensures
            final(env).structs@ == old(env).structs@.push(
                StructDef { name: self.name, members: self.members, compute, constrain },
            ),
            final(env).functions == old(env).functions,
    {
        env.structs.push(self.build(compute, constrain));
    }
}

impl ModuleEnv {
    /// An empty module.
    pub fn new() -> (r: Self)
        ensures
            r.structs@ == Seq::<StructDef>::empty(),
            r.functions@ == Seq::<FunctionDecl>::empty(),
    {
        ModuleEnv { structs: Vec::new(), functions: Vec::new() }
    }

    /// Whether a function is declared in the module itself. The functions of structs do not
    /// count.
    pub fn module_contains_top_level_function(&self, name: &str) -> (r: bool)
        ensures
            r == declares(self.functions@, name@),
    {
        let wanted = name.to_owned();
        let mut i: usize = 0;
        while i < self.functions.len()
            invariant
                wanted@ == name@,
                i <= self.functions@.len(),
                forall|j: int| 0 <= j < i ==> (#[trigger] self.functions@[j]).name@ != name@,
            decreases self.functions@.len() - i,
        {
            if self.functions[i].name == wanted {
                assert(self.functions@[i as int].name@ == name@);
                return true;
            }
            i = i + 1;
        }
        false
    }

    /// Whether some operation of the module calls a function.
    pub fn module_contains_call_to(&self, callee: &str) -> (r: bool)
        ensures
            r == module_calls(self.structs@, callee@),
    {
        let wanted = callee.to_owned();
        let mut i: usize = 0;
        while i < self.structs.len()
            invariant
                wanted@ == callee@,
                i <= self.structs@.len(),
                forall|j: int| 0 <= j < i ==> !struct_calls(#[trigger] self.structs@[j], callee@),
            decreases self.structs@.len() - i,
        {
            if ops_contain_call_to(&self.structs[i].compute.ops, &wanted) || ops_contain_call_to(
                &self.structs[i].constrain.ops,
                &wanted,
            ) {
                assert(struct_calls(self.structs@[i as int], callee@));
                return true;
            }
            i = i + 1;
        }
        false
    }

    /// Declares a private function, unless the module has one of that name.
    pub fn declare_private_extern_function(
        &mut self,
        name: &str,
        inputs: Vec<ValueType>,
        results: Vec<ValueType>,
    )
        ensures
            final(self).structs == old(self).structs,
            decl_views(final(self).functions@) == with_declaration(
                decl_views(old(self).functions@),
                name@,
                inputs@,
                results@,
            ),
    {
        let ghost before = decl_views(self.functions@);
        let taken = self.module_contains_top_level_function(name);
        proof {
            if declares(self.functions@, name@) {
                let i = choose|i: int|
                    0 <= i < self.functions@.len() && (#[trigger] self.functions@[i]).name@
                        == name@;
                assert(before[i].0 == name@);
            }
            if exists|i: int| 0 <= i < before.len() && (#[trigger] before[i]).0 == name@ {
                let i = choose|i: int| 0 <= i < before.len() && (#[trigger] before[i]).0 == name@;
                assert(self.functions@[i].name@ == name@);
            }
        }
        if taken {
            return ;
        }
        self.functions.push(FunctionDecl { name: name.to_owned(), inputs, results });
        assert(decl_views(self.functions@) =~= before.push((name@, inputs@, results@)));
    }
}

/// Declaring a function a second time changes nothing.
pub proof fn declarations_are_idempotent(
    ds: Seq<(Seq<char>, Seq<ValueType>, Seq<ValueType>)>,
    name: Seq<char>,
    inputs: Seq<ValueType>,
    results: Seq<ValueType>,
    other_inputs: Seq<ValueType>,
    other_results: Seq<ValueType>,
)
    ensures
        ({
            let once = with_declaration(ds, name, inputs, results);
            with_declaration(once, name, other_inputs, other_results) == once
        }),
{
    let once = with_declaration(ds, name, inputs, results);
    if !(exists|i: int| 0 <= i < ds.len() && (#[trigger] ds[i]).0 == name) {
        assert(once[ds.len() as int].0 == name);
    }
}

/// A declaration declares its function with its types where the name is free, and keeps every function
/// that was declared before.
pub proof fn declarations_keep_the_others(
    ds: Seq<(Seq<char>, Seq<ValueType>, Seq<ValueType>)>,
    name: Seq<char>,
    inputs: Seq<ValueType>,
    results: Seq<ValueType>,
    other: (Seq<char>, Seq<ValueType>, Seq<ValueType>),
)
    ensures
        ds.contains(other) ==> with_declaration(ds, name, inputs, results).contains(other),
        with_declaration(ds, name, inputs, results).contains(other) ==> ds.contains(other) || other
            == (name, inputs, results),
        (forall|i: int| 0 <= i < ds.len() ==> (#[trigger] ds[i]).0 != name) ==> with_declaration(
            ds,
            name,
            inputs,
            results,
        ).contains((name, inputs, results)),
{
    let after = with_declaration(ds, name, inputs, results);
    if ds.contains(other) {
        let i = choose|i: int| 0 <= i < ds.len() && ds[i] == other;
        assert(after[i] == other);
    }
    if forall|i: int| 0 <= i < ds.len() ==> (#[trigger] ds[i]).0 != name {
        assert(after[ds.len() as int] == (name, inputs, results));
    }
    if after.contains(other) {
        let i = choose|i: int| 0 <= i < after.len() && after[i] == other;
        if i < ds.len() {
            assert(ds[i] == other);
        }
    }
}

} // verus!
