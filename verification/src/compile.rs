//! Compiling a whole function.
use crate::assemble::{Ctxt, Function, Needs};
use crate::ast::{names_view, FnDecl};
use crate::error::CompileError;
use crate::inst::InstKind;
use crate::model::{function, CtxtView};
use vstd::prelude::*;

verus! {

/// A copy of a list of names.
fn clone_names(names: &Vec<String>) -> (copy: Vec<String>)
    ensures
        copy@ == names@,
{
    let mut copy: Vec<String> = Vec::new();
    let mut i: usize = 0;
    while i < names.len()
        invariant
            i <= names.len(),
            copy@ == names@.take(i as int),
        decreases names.len() - i,
    {
        copy.push(names[i].clone());
        assert(copy@ =~= names@.take(i + 1));
        i = i + 1;
    }
    assert(names@.take(names.len() as int) =~= names@);
    copy
}

/// Compiles the body of a function or closure.
///
/// The body starts with nothing on the stack but the parameters, which lie in
/// the first slots in the order in which they are declared. It is compiled for
/// its value, which the function returns. A closure reaches the variables of
/// the function around it, which `captures` names, through its environment.
///
/// Where the body is at fault, the first fault in the order of the source text
/// is handed back, and no instruction with it: what was assembled up to there
/// is dropped.
pub fn compile_function(decl: &FnDecl) -> (compiled: Result<Function, CompileError>)
    ensures
        match function(*decl) {
            Ok(s) => {
                &&& compiled matches Ok(f)
                &&& f.insts@ == s.insts
                &&& f.consts@ == s.consts
                &&& f.frame == s.peak
                &&& f.params == decl.params.len()
                &&& s.depth == decl.params.len()
                &&& f.frame >= f.params
                &&& forall|i: int| 0 <= i < f.insts.len() ==> !(#[trigger] f.insts[i]).pending()
                &&& forall|i: int|
                    0 <= i < f.insts.len() ==> (#[trigger] f.insts[i]).kind.aims_within(
                        f.insts.len() - 1,
                    )
            },
            Err(err) => compiled == Err::<Function, CompileError>(err),
        },
{
    reveal(CtxtView::params);
    let captures = clone_names(&decl.captures);
    let mut cx = Ctxt::new(captures);
    let ghost start = cx@;
    proof {
        assert(captures@.map_values(|n: String| n@) == names_view(decl.captures@));
        cx.lemma_wf();
        start.lemma_leaves_nothing();
    }
    let mut i: usize = 0;
    while i < decl.params.len()
        invariant
            i <= decl.params.len(),
            cx.wf(),
            cx@.wf(),
            cx@.depth == i,
            cx@.insts.len() == 0,
            cx@.loops.len() == 0,
            cx@.params(decl.params@, i as nat) == start.params(decl.params@, 0),
        decreases decl.params.len() - i,
    {
        reveal(CtxtView::params);
        let ghost s = cx@;
        proof {
            s.lemma_leaves_nothing();
            s.lemma_push_value(s, 0);
            s.push_value().lemma_bind(s, decl.params[i as int]@);
            s.push_value().bind(decl.params[i as int]@).lemma_extends(s);
        }
        cx.push_value();
        cx.bind(decl.params[i].clone());
        i = i + 1;
    }
    let ghost entered = cx@;
    match cx.expr(&decl.body, Needs::Value) {
        Err(err) => {
            return Err(err);
        },
        Ok(()) => {},
    }
    let ghost s1 = cx@;
    proof {
        s1.lemma_emit(entered, InstKind::Return, decl.span);
        s1.emit(InstKind::Return, decl.span).lemma_pop_value(entered, 1);
        s1.emit(InstKind::Return, decl.span).pop_value().lemma_extends(entered);
        s1.lemma_settled_plain(entered, Set::empty(), InstKind::Return, decl.span);
        s1.emit(InstKind::Return, decl.span).pop_value().lemma_settled_done(entered);
        s1.lemma_extends(entered);
        assert forall|i: int| 0 <= i < s1.insts.len() + 1 implies (#[trigger] s1.emit(
            InstKind::Return,
            decl.span,
        ).insts[i]).kind.aims_within(s1.insts.len() as int) by {
            if i < s1.insts.len() {
                assert(s1.insts[i].kind.aims_within(s1.insts.len() as int));
            }
        }
    }
    cx.emit(InstKind::Return, decl.span);
    cx.pop_value();
    cx.close();
    Ok(cx.finish(decl.params.len()))
}

} // verus!
