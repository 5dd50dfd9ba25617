//! The calls into the `cel` crate that the library makes: compiling a
//! program, reading which variables it references, and reading the shape of
//! its syntax tree for the cost estimate.
use vstd::prelude::*;
use crate::analysis::CostExpr;

verus! {

/// A compiled CEL program (opaque here).
#[verifier::external_type_specification]
#[verifier::external_body]
pub struct ExProgram(cel::Program);

/// The outcome of parsing CEL source text: `None` when it parses, the
/// parser's error text otherwise.
pub uninterp spec fn cel_parse_outcome(source: Seq<char>) -> Option<Seq<char>>;

/// The variables that the program compiled from CEL source text references.
pub uninterp spec fn cel_variables(source: Seq<char>) -> Set<Seq<char>>;

/// A node of cel's syntax tree (opaque here).
#[verifier::external_type_specification]
#[verifier::external_body]
pub struct ExIdedExpr(cel::IdedExpr);

/// The shape, as far as the cost estimate reads it, of the syntax tree that
/// CEL source text parses to.
pub uninterp spec fn cel_cost_tree(source: Seq<char>) -> CostExpr;

/// A compiled program together with the source text it was compiled from;
/// only [`compile_program`] makes one.
#[derive(Debug)]
pub struct SourceProgram {
    program: cel::Program,
    source: String,
}

impl View for SourceProgram {
    type V = Seq<char>;

    /// The source text the program was compiled from.
    closed spec fn view(&self) -> Seq<char> {
        self.source@
    }
}

impl SourceProgram {
    /// The compiled program itself, to run.
    pub fn program(&self) -> &cel::Program {
        &self.program
    }

    /// The source text the program was compiled from.
    pub fn source(&self) -> (r: &str)
        ensures
            r@ == self@,
    {
        self.source.as_str()
    }
}

/// Calls `cel::Program::compile`. Claimed: whether it succeeds, and the text
/// of its error, depend on the source text alone (the parser is
/// deterministic); the program is kept with its source.
#[verifier::external_body]
pub(crate) fn compile_program(source: &str) -> (r: Result<SourceProgram, String>)
    ensures
        r is Ok <==> cel_parse_outcome(source@) is None,
        r matches Err(e) ==> cel_parse_outcome(source@) == Some(e@),
        r matches Ok(p) ==> p@ == source@,
{
    match cel::Program::compile(source) {
        Ok(p) => Ok(SourceProgram { program: p, source: source.to_string() }),
        Err(e) => Err(e.to_string()),
    }
}

/// Calls `ExpressionReferences::has_variable` on the program's references,
/// which looks `name` up in the same set that `variables` lists: whether
/// `name` is among the variables [`cel_variables`] names.
#[verifier::external_body]
pub(crate) fn program_references(p: &SourceProgram, name: &str) -> (r: bool)
    ensures
        r == cel_variables(p@).contains(name@),
{
    p.program.references().has_variable(name)
}

/// Calls `ExpressionReferences::variables`: the variables the program
/// references, as owned strings. They come from a set, so no name occurs
/// twice and together they are the set [`cel_variables`] names; their order
/// is the set's and nothing is claimed of it.
#[verifier::external_body]
pub(crate) fn program_variables(p: &SourceProgram) -> (r: Vec<String>)
    ensures
        forall|i: int, j: int| 0 <= i < j < r@.len() ==> r@[i]@ != r@[j]@,
        forall|v: Seq<char>| cel_variables(p@).contains(v) <==> exists|i: int| 0 <= i < r@.len() && r@[i]@ == v,
{
    p.program.references().variables().into_iter().map(|v| v.to_string()).collect()
}

/// Reads a node of cel's syntax tree, and the nodes beneath it, into the
/// cost model's shape: one arm per kind of node the estimate reads, moving
/// the call's name and the operands over; every other kind is `Other`.
/// Nothing is claimed of it; [`program_cost_tree`] makes the claim.
#[verifier::external_body]
fn cost_of_node(e: &cel::IdedExpr) -> CostExpr {
    match &e.expr {
        cel::common::ast::Expr::Comprehension(c) => CostExpr::Comprehension(Box::new(cost_of_node(&c.loop_step))),
        cel::common::ast::Expr::Call(call) => CostExpr::Call {
            func: call.func_name.clone(),
            target: call.target.as_ref().map(|t| Box::new(cost_of_node(t))),
            args: call.args.iter().map(cost_of_node).collect(),
        },
        cel::common::ast::Expr::Select(sel) => CostExpr::Select(Box::new(cost_of_node(&sel.operand))),
        cel::common::ast::Expr::List(list) => CostExpr::List(list.elements.iter().map(cost_of_node).collect()),
        _ => CostExpr::Other,
    }
}

/// Calls `cel::Program::expression` and reads the syntax tree into the cost
/// model's shape. Claimed: the result is a function of the program's source
/// text alone (the parser is deterministic), which [`cel_cost_tree`] names.
#[verifier::external_body]
pub(crate) fn program_cost_tree(p: &SourceProgram) -> (r: CostExpr)
    ensures
        r == cel_cost_tree(p@),
{
    cost_of_node(p.program.expression())
}

} // verus!
