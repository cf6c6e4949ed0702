//! The TELL form, which prints its arguments, and the unary NOT form.
use vstd::prelude::*;
use crate::diagnostic::{lit, ErrKind, TVErr};
use crate::emit::{
    cat, emits, form_out, head_is, quoted, routine_print, value_is, word_print, Emitted,
};
use crate::inter::{INode, InterKind, InterNode};
use crate::writer::{spacer, CustomBufWriter};

verus! {

broadcast use crate::inter::group_inter_view;

/// Handler of `<TELL a1 a2 ...>`.
pub struct TELL {}

/// The shape TELL accepts: a routine headed by TELL with at least one argument.
pub open spec fn tell_valid(n: INode) -> bool {
    head_is(n, lit("TELL")) && n.children.len() >= 2
}

/// One TELL argument: a nested form, a quoted text, or a bare word.
pub open spec fn tell_arg(c: INode) -> Emitted
    decreases c, c.children.len() + 4,
{
    if c.kind == InterKind::Routine {
        form_out(c, 0)
    } else if c.kind == InterKind::Text {
        Ok(quoted(c.value))
    } else if c.kind == InterKind::Word {
        Ok(c.value)
    } else {
        Err(ErrKind::InvalidFormShape)
    }
}

/// The arguments from index `i` on, each after " + " but the first.
pub open spec fn tell_from(n: INode, i: int) -> Emitted
    decreases n, n.children.len() - i,
{
    if i < 1 || i >= n.children.len() {
        Ok(Seq::empty())
    } else {
        let sep = if i > 1 { lit(" + ") } else { Seq::empty() };
        cat(cat(Ok(sep), tell_arg(n.children[i])), tell_from(n, i + 1))
    }
}

/// `print(a1 + a2 + ...)` at the given indent.
#[verifier::opaque]
pub open spec fn tell_out(n: INode, indent: nat) -> Emitted
    decreases n, n.children.len() + 2,
{
    if !tell_valid(n) {
        Err(ErrKind::InvalidFormShape)
    } else {
        cat(cat(Ok(spacer(indent) + lit("print(")), tell_from(n, 1)), Ok(lit(")")))
    }
}

/// `!x` at the given indent, for a routine with exactly one operand.
#[verifier::opaque]
pub open spec fn not_out(n: INode, indent: nat) -> Emitted
    decreases n, n.children.len() + 2,
{
    if n.children.len() != 2 {
        Err(ErrKind::InvalidFormShape)
    } else if n.children[1].kind == InterKind::Routine {
        cat(Ok(spacer(indent) + lit("!")), form_out(n.children[1], 0))
    } else if n.children[1].kind == InterKind::Word {
        Ok(spacer(indent) + lit("!") + n.children[1].value)
    } else {
        Err(ErrKind::InvalidFormShape)
    }
}

impl TELL {
    pub fn validate(n: &InterNode) -> (r: Result<(), TVErr>)
        ensures
            r is Ok <==> tell_valid(n@),
            r matches Err(e) ==> e.spec_kind() == ErrKind::InvalidFormShape,
    {
        if n.kind != InterKind::Routine || n.children.len() < 2 || n.children[0].kind
            != InterKind::Word || !value_is(&n.children[0].value, "TELL") {
            return Err(TVErr::origin(ErrKind::InvalidFormShape, "invalid TELL"));
        }
        Ok(())
    }

    /// Writes one argument.
    fn print_arg(c: &InterNode, out: &mut CustomBufWriter) -> (r: Result<(), TVErr>)
        ensures
            emits(r, old(out)@, final(out)@, tell_arg(c@)),
        decreases c, c.children@.len() + 4,
    {
        if c.kind == InterKind::Routine {
            routine_print(c, 0, out)
        } else if c.kind == InterKind::Text {
            crate::emit::quoted_print(c, out)
        } else if c.kind == InterKind::Word {
            word_print(c, out)
        } else {
            Err(TVErr::origin(ErrKind::InvalidFormShape, "cannot print this node in TELL"))
        }
    }

    pub fn print(n: &InterNode, indent: u64, out: &mut CustomBufWriter) -> (r: Result<(), TVErr>)
        ensures
            emits(r, old(out)@, final(out)@, tell_out(n@, indent as nat)),
        decreases n, n.children@.len() + 2,
    {
        reveal(tell_out);
        match TELL::validate(n) {
            Ok(()) => {},
            Err(e) => { return Err(e); },
        }
        out.w_spacer(indent);
        out.w("print(");
        let ghost start = out@;
        let ghost mut acc: Seq<u8> = Seq::empty();
        let mut i: usize = 1;
        while i < n.children.len()
            invariant
                1 <= i <= n.children@.len(),
                tell_valid(n@),
                out@ == start + acc,
                tell_from(n@, 1) == cat(Ok(acc), tell_from(n@, i as int)),
            decreases n.children@.len() - i,
        {
            if i > 1 {
                out.w(" + ");
            }
            let res = TELL::print_arg(&n.children[i], out);
            proof {
                assert(n@.children[i as int] == n.children@[i as int]@);
            }
            match res {
                Ok(()) => {},
                Err(e) => {
                    assert(tell_from(n@, i as int) is Err);
                    reveal(tell_out);
                    return Err(e);
                },
            }
            proof {
                let sep = if i > 1 { lit(" + ") } else { Seq::empty() };
                let x = tell_arg(n@.children[i as int])->Ok_0;
                let rest = tell_from(n@, i + 1);
                if rest is Ok {
                    assert(acc + (sep + x + rest->Ok_0) =~= acc + sep + x + rest->Ok_0);
                }
                assert(out@ =~= start + (acc + sep + x));
                acc = acc + sep + x;
            }
            i += 1;
        }
        out.w(")");
        proof {
            assert(acc + Seq::<u8>::empty() =~= acc);
            assert(out@ =~= old(out)@ + (spacer(indent as nat) + lit("print(") + acc + lit(")")));
        }
        Ok(())
    }
}

/// Handler of `<NOT x>`.
#[allow(non_snake_case)]
pub fn handle_NOT(n: &InterNode, indent: u64, out: &mut CustomBufWriter) -> (r: Result<(), TVErr>)
    ensures
        emits(r, old(out)@, final(out)@, not_out(n@, indent as nat)),
    decreases n, n.children@.len() + 2,
{
    reveal(not_out);
    if n.children.len() != 2 {
        return Err(TVErr::origin(ErrKind::InvalidFormShape, "NOT takes exactly one operand"));
    }
    let c = &n.children[1];
    assert(n@.children[1] == c@);
    if c.kind == InterKind::Routine {
        out.w_spacer(indent);
        out.w("!");
        let ghost mid = out@;
        let r = routine_print(c, 0, out);
        proof {
            if r is Ok {
                let x = form_out(c@, 0)->Ok_0;
                assert(out@ == mid + x);
                assert(out@ =~= old(out)@ + (spacer(indent as nat) + lit("!") + x));
            }
        }
        r
    } else if c.kind == InterKind::Word {
        out.w_spacer(indent);
        out.w("!");
        let r = word_print(c, out);
        assert(out@ =~= old(out)@ + (spacer(indent as nat) + lit("!") + c@.value));
        r
    } else {
        Err(TVErr::origin(ErrKind::InvalidFormShape, "NOT operand must be a form or a word"))
    }
}

} // verus!
