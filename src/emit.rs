//! The emitter: what each form writes, the primitive printers, and dispatch
//! on the head word of a form.
use vstd::prelude::*;
use crate::diagnostic::{lit, push_decimal, push_str, ErrKind, TVErr};
use crate::inter::{INode, InterKind, InterNode};
use crate::writer::CustomBufWriter;
use crate::tell::{handle_NOT, TELL, not_out, tell_out};
use crate::object::{OBJECT, object_out};

verus! {

broadcast use crate::inter::group_inter_view;

/// What an emission produces: the bytes written, or the kind of its failure.
pub type Emitted = Result<Seq<u8>, ErrKind>;

/// Concatenates two emissions; the first failure wins.
pub open spec fn cat(a: Emitted, b: Emitted) -> Emitted {
    match a {
        Ok(x) => match b {
            Ok(y) => Ok(x + y),
            Err(k) => Err(k),
        },
        Err(k) => Err(k),
    }
}

/// `r` and the sink's contents before and after agree with the emission `s`.
pub open spec fn emits(r: Result<(), TVErr>, before: Seq<u8>, after: Seq<u8>, s: Emitted) -> bool {
    match s {
        Ok(b) => r is Ok && after == before + b,
        Err(k) => match r {
            Err(e) => e.spec_kind() == k,
            Ok(_) => false,
        },
    }
}

/// The escaped form of one byte inside a double-quoted string.
pub open spec fn escape_byte(b: u8) -> Seq<u8> {
    if b == 34 || b == 92 { seq![92u8, b] } else { seq![b] }
}

pub open spec fn escape(v: Seq<u8>) -> Seq<u8>
    decreases v.len(),
{
    if v.len() == 0 { Seq::empty() } else { escape(v.drop_last()) + escape_byte(v.last()) }
}

/// `v` between double quotes, with quotes and backslashes escaped.
pub open spec fn quoted(v: Seq<u8>) -> Seq<u8> {
    lit("\"") + escape(v) + lit("\"")
}

pub open spec fn is_word(n: INode) -> bool {
    n.kind == InterKind::Word
}

/// The node is a compound of the given kind whose first child is a Word.
pub open spec fn headed(n: INode, kind: InterKind) -> bool {
    n.kind == kind && n.children.len() >= 1 && is_word(n.children[0])
}

pub open spec fn head_is(n: INode, name: Seq<u8>) -> bool {
    headed(n, InterKind::Routine) && n.children[0].value == name
}

/// Word-print: the word's value verbatim.
pub open spec fn word_out(n: INode) -> Emitted {
    if is_word(n) { Ok(n.value) } else { Err(ErrKind::InvalidFormShape) }
}

/// Word-print-quoted and Text-print: the value, quoted for the target.
pub open spec fn quoted_out(n: INode) -> Emitted {
    if n.kind == InterKind::Word || n.kind == InterKind::Text {
        Ok(quoted(n.value))
    } else {
        Err(ErrKind::InvalidFormShape)
    }
}

/// The translation of a compound form, dispatched on its head word.
pub open spec fn form_out(n: INode, indent: nat) -> Emitted
    decreases n, n.children.len() + 3,
{
    if !headed(n, InterKind::Routine) {
        Err(ErrKind::InvalidFormShape)
    } else if n.children[0].value == lit("TELL") {
        tell_out(n, indent)
    } else if n.children[0].value == lit("OBJECT") {
        object_out(n, indent)
    } else if n.children[0].value == lit("NOT") {
        not_out(n, indent)
    } else {
        Err(ErrKind::UnknownForm)
    }
}

/// The output for the children of the root from index `i` on.
pub open spec fn top_from(root: INode, i: int) -> Emitted
    decreases root.children.len() - i,
{
    if i < 0 || i >= root.children.len() {
        Ok(Seq::empty())
    } else {
        cat(form_out(root.children[i], 0), top_from(root, i + 1))
    }
}

/// The whole module emitted for a root.
pub open spec fn emit_out(root: INode) -> Emitted {
    top_from(root, 0)
}

/// Builds the context message "in FORM at LINE:COLUMN".
pub fn context_message(form: &str, n: &InterNode) -> (r: Vec<u8>)
    ensures
        r@ == lit("in ") + lit(form) + lit(" at ") + crate::diagnostic::decimal(n.loc.line as nat)
            + lit(":") + crate::diagnostic::decimal(n.loc.column as nat),
{
    let mut m: Vec<u8> = Vec::new();
    push_str(&mut m, "in ");
    push_str(&mut m, form);
    push_str(&mut m, " at ");
    push_decimal(&mut m, n.loc.line);
    push_str(&mut m, ":");
    push_decimal(&mut m, n.loc.column);
    m
}

/// Wraps a diagnostic with the form name and the node's location.
pub fn wrap_at(e: TVErr, form: &str, n: &InterNode) -> (r: TVErr)
    ensures
        r.spec_kind() == e.spec_kind(),
        r.chain() == e.chain().push(lit("in ") + lit(form) + lit(" at ") + crate::diagnostic::decimal(n.loc.line as nat)
            + lit(":") + crate::diagnostic::decimal(n.loc.column as nat)),
{
    let m = context_message(form, n);
    TVErr::wrap_bytes(e, m)
}

/// Word-print.
pub fn word_print(n: &InterNode, out: &mut CustomBufWriter) -> (r: Result<(), TVErr>)
    ensures
        emits(r, old(out)@, final(out)@, word_out(n@)),
{
    if n.kind != InterKind::Word {
        return Err(TVErr::origin(ErrKind::InvalidFormShape, "expected a word"));
    }
    out.w_bytes(n.value.as_slice());
    Ok(())
}

/// Writes `v` between double quotes, escaping quotes and backslashes.
pub fn write_quoted(v: &Vec<u8>, out: &mut CustomBufWriter)
    ensures
        final(out)@ == old(out)@ + quoted(v@),
{
    out.w("\"");
    let ghost start = out@;
    let mut i: usize = 0;
    while i < v.len()
        invariant
            i <= v@.len(),
            out@ == start + escape(v@.subrange(0, i as int)),
        decreases v@.len() - i,
    {
        let b = v[i];
        if b == 34u8 || b == 92u8 {
            let two: [u8; 2] = [92u8, b];
            out.w_bytes(&two);
        } else {
            let one: [u8; 1] = [b];
            out.w_bytes(&one);
        }
        proof {
            assert(v@.subrange(0, i + 1).drop_last() =~= v@.subrange(0, i as int));
            assert(out@ =~= start + escape(v@.subrange(0, i + 1)));
        }
        i += 1;
    }
    assert(v@.subrange(0, i as int) =~= v@);
    out.w("\"");
    assert(out@ =~= old(out)@ + quoted(v@));
}

/// Word-print-quoted and Text-print.
pub fn quoted_print(n: &InterNode, out: &mut CustomBufWriter) -> (r: Result<(), TVErr>)
    ensures
        emits(r, old(out)@, final(out)@, quoted_out(n@)),
{
    if n.kind != InterKind::Word && n.kind != InterKind::Text {
        return Err(TVErr::origin(ErrKind::InvalidFormShape, "expected a word or a text"));
    }
    write_quoted(&n.value, out);
    Ok(())
}

/// Tells whether a word's value equals the bytes of a string.
pub fn value_is(v: &Vec<u8>, s: &str) -> (r: bool)
    ensures
        r == (v@ == lit(s)),
{
    let b = s.as_bytes();
    if v.len() != b.len() {
        return false;
    }
    let mut i: usize = 0;
    while i < v.len()
        invariant
            i <= v@.len(),
            v@.len() == b@.len(),
            b@ == lit(s),
            v@.subrange(0, i as int) == b@.subrange(0, i as int),
        decreases v@.len() - i,
    {
        if v[i] != b[i] {
            return false;
        }
        i += 1;
        assert(v@.subrange(0, i as int) =~= b@.subrange(0, i as int));
    }
    assert(v@ =~= v@.subrange(0, i as int));
    assert(b@ =~= b@.subrange(0, i as int));
    true
}

/// Routine-print: a nested compound form, dispatched on its head word.
pub fn routine_print(n: &InterNode, indent: u64, out: &mut CustomBufWriter) -> (r: Result<(), TVErr>)
    requires
        indent < u64::MAX,
    ensures
        emits(r, old(out)@, final(out)@, form_out(n@, indent as nat)),
    decreases n, n.children@.len() + 3,
{
    if n.kind != InterKind::Routine || n.children.len() == 0 || n.children[0].kind != InterKind::Word {
        return Err(TVErr::origin(ErrKind::InvalidFormShape, "expected a form with a head word"));
    }
    let head = &n.children[0].value;
    if value_is(head, "TELL") {
        match TELL::print(n, indent, out) {
            Ok(()) => Ok(()),
            Err(e) => Err(wrap_at(e, "TELL", n)),
        }
    } else if value_is(head, "OBJECT") {
        match OBJECT::print(n, indent, out) {
            Ok(()) => Ok(()),
            Err(e) => Err(wrap_at(e, "OBJECT", n)),
        }
    } else if value_is(head, "NOT") {
        match handle_NOT(n, indent, out) {
            Ok(()) => Ok(()),
            Err(e) => Err(wrap_at(e, "NOT", n)),
        }
    } else {
        Err(TVErr::origin(ErrKind::UnknownForm, "unknown form"))
    }
}

/// Emits every top-level form of a root, in order.
pub fn emit(root: &InterNode, out: &mut CustomBufWriter) -> (r: Result<(), TVErr>)
    ensures
        emits(r, old(out)@, final(out)@, emit_out(root@)),
{
    let mut i: usize = 0;
    let ghost mut acc: Seq<u8> = Seq::empty();
    while i < root.children.len()
        invariant
            i <= root.children@.len(),
            out@ == old(out)@ + acc,
            emit_out(root@) == cat(Ok(acc), top_from(root@, i as int)),
        decreases root.children@.len() - i,
    {
        let res = routine_print(&root.children[i], 0, out);
        match res {
            Ok(()) => {
                proof {
                    let s = form_out(root@.children[i as int], 0);
                    let x = s->Ok_0;
                    assert(acc + x + (top_from(root@, i + 1)->Ok_0) =~= acc + (x + (top_from(root@, i + 1)->Ok_0)));
                    acc = acc + x;
                    assert(out@ =~= old(out)@ + acc);
                }
                i += 1;
            },
            Err(e) => {
                return Err(e);
            },
        }
    }
    assert(acc + Seq::<u8>::empty() =~= acc);
    Ok(())
}


/// Emission is a function of the tree: two trees with the same content give
/// the same bytes (or the same failure), so emitting a tree again repeats the
/// output byte for byte.
pub proof fn lemma_emit_deterministic(a: &InterNode, b: &InterNode)
    requires
        a@ == b@,
    ensures
        emit_out(a@) == emit_out(b@),
{
}

} // verus!
