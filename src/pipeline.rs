//! The whole translation: bytes of a source file in, bytes of JavaScript out.
use vstd::prelude::*;
use crate::diagnostic::{ErrKind, TVErr};
use crate::emit::{emit, emit_out};
use crate::inter::{clone_and_lower, lower_view, shape_ok};
use crate::lexer::TokenGenerator;
use crate::tree::{build_tree, empty_root, parse, ZilNode};
use crate::writer::CustomBufWriter;

verus! {

/// The translation of an input: the emitted module, or the kind of the first
/// failure (lexing and nesting, then shape, then emission).
pub open spec fn translation(s: Seq<u8>, file: usize) -> Result<Seq<u8>, ErrKind> {
    match parse(s, file) {
        Err(k) => Err(k),
        Ok(t) => if !shape_ok(t, true) {
            Err(ErrKind::InvalidFormShape)
        } else {
            emit_out(lower_view(t))
        },
    }
}

/// Translates the bytes of one source file into the bytes of a JavaScript module.
pub fn translate(file_key: usize, input: Vec<u8>) -> (r: Result<Vec<u8>, TVErr>)
    requires
        input@.len() < usize::MAX,
    ensures
        match translation(input@, file_key) {
            Ok(b) => r matches Ok(v) && v@ == b,
            Err(k) => r matches Err(e) && e.spec_kind() == k,
        },
{
    let mut tokens = TokenGenerator::new(file_key, input);
    let mut root = ZilNode::new();
    match build_tree(&mut tokens, &mut root) {
        Ok(()) => {},
        Err(e) => { return Err(e); },
    }
    let lowered = match clone_and_lower(&root) {
        Ok(t) => t,
        Err(e) => { return Err(e); },
    };
    let mut out = CustomBufWriter::new();
    match emit(&lowered, &mut out) {
        Ok(()) => {},
        Err(e) => { return Err(e); },
    }
    let v = out.into_bytes();
    assert(v@ =~= Seq::<u8>::empty() + v@);
    Ok(v)
}


/// Empty input builds a Root with no children and translates to no output.
pub proof fn lemma_empty_input(file: usize)
    ensures
        parse(Seq::<u8>::empty(), file) == Ok::<crate::tree::SNode, ErrKind>(empty_root()),
        translation(Seq::<u8>::empty(), file) == Ok::<Seq<u8>, ErrKind>(Seq::<u8>::empty()),
{
    let t = empty_root();
    assert(shape_ok(t, true));
    assert(lower_view(t).children.len() == 0);
}

} // verus!
