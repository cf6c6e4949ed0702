//! The OBJECT form: an object literal built from keyed sub-groupings.
use vstd::prelude::*;
use crate::diagnostic::{lit, push_bytes, push_str, ErrKind, TVErr};
use crate::emit::{
    cat, emits, head_is, headed, quoted_out, quoted_print, value_is, word_out, word_print, Emitted,
};
use crate::inter::{INode, InterKind, InterNode};
use crate::writer::{spacer, CustomBufWriter};

verus! {

broadcast use crate::inter::group_inter_view;

/// Handler of `<OBJECT name (KEY arg ...) ...>`.
pub struct OBJECT {}

pub open spec fn object_valid(n: INode) -> bool {
    head_is(n, lit("OBJECT")) && n.children.len() >= 2
}

/// A sub-grouping: a grouping with a head word and at least one argument.
pub open spec fn sub_valid(g: INode) -> bool {
    headed(g, InterKind::Grouping) && g.children.len() >= 2
}

/// An integer literal: an optional minus sign, then one or more digits.
pub open spec fn is_int_word(v: Seq<u8>) -> bool {
    let start: int = if v.len() > 0 && v[0] == 45 { 1 } else { 0 };
    v.len() > start && forall|i: int| start <= i < v.len() ==> 48 <= #[trigger] v[i] <= 57
}

/// `KEY: () => value,` with the value produced by `v`.
pub open spec fn keyed_line(g: INode, ind: nat, arrow: bool, v: Emitted) -> Emitted {
    let lead = spacer(ind) + g.children[0].value + (if arrow { lit(": () => ") } else { lit(": ") });
    cat(cat(Ok(lead), v), Ok(lit(",\n")))
}

/// An integer argument, or NotAnInteger.
pub open spec fn int_arg(c: INode) -> Emitted {
    if c.kind == InterKind::Word && is_int_word(c.value) {
        Ok(c.value)
    } else {
        Err(ErrKind::NotAnInteger)
    }
}

/// The quoted items of a SYNONYM or ADJECTIVE sub-grouping from index `i`.
pub open spec fn strings_from(g: INode, i: int) -> Emitted
    decreases g.children.len() - i,
{
    if i < 1 || i >= g.children.len() {
        Ok(Seq::empty())
    } else {
        let sep = if i > 1 { lit(", ") } else { Seq::empty() };
        cat(cat(Ok(sep), quoted_out(g.children[i])), strings_from(g, i + 1))
    }
}

/// The `w: true` entries of a FLAGS or VTYPE sub-grouping from index `i`.
pub open spec fn bools_from(g: INode, i: int) -> Emitted
    decreases g.children.len() - i,
{
    if i < 1 || i >= g.children.len() {
        Ok(Seq::empty())
    } else {
        let sep = if i > 1 { lit(", ") } else { Seq::empty() };
        cat(cat(cat(Ok(sep), word_out(g.children[i])), Ok(lit(": true"))), bools_from(g, i + 1))
    }
}

pub open spec fn is_string_key(k: Seq<u8>) -> bool {
    k == lit("TEXT") || k == lit("DESC") || k == lit("LDESC") || k == lit("FDESC") || k == lit("DESCFCN")
}

pub open spec fn is_int_key(k: Seq<u8>) -> bool {
    k == lit("CAPACITY") || k == lit("SIZE") || k == lit("VALUE") || k == lit("TVALUE")
}

pub open spec fn is_fn_key(k: Seq<u8>) -> bool {
    k == lit("ACTION") || k == lit("IN")
}

pub open spec fn is_array_key(k: Seq<u8>) -> bool {
    k == lit("SYNONYM") || k == lit("ADJECTIVE")
}

pub open spec fn is_bools_key(k: Seq<u8>) -> bool {
    k == lit("FLAGS") || k == lit("VTYPE")
}

/// The line (or the failure) for one sub-grouping at indent `ind`.
#[verifier::opaque]
pub open spec fn sub_out(g: INode, ind: nat) -> Emitted {
    if !sub_valid(g) {
        Err(ErrKind::InvalidFormShape)
    } else {
        let k = g.children[0].value;
        if is_string_key(k) {
            keyed_line(g, ind, true, quoted_out(g.children[1]))
        } else if is_fn_key(k) {
            keyed_line(g, ind, true, word_out(g.children[1]))
        } else if is_int_key(k) {
            keyed_line(g, ind, true, int_arg(g.children[1]))
        } else if is_array_key(k) {
            keyed_line(g, ind, true, cat(cat(Ok(lit("[")), strings_from(g, 1)), Ok(lit("]"))))
        } else if is_bools_key(k) {
            let lead = spacer(ind) + k + lit(": { ");
            cat(cat(Ok(lead), bools_from(g, 1)), Ok(lit(" },\n")))
        } else if k == lit("STRENGTH") {
            keyed_line(g, ind, false, int_arg(g.children[1]))
        } else {
            Err(ErrKind::UnknownSubgrouping)
        }
    }
}

/// The sub-groupings of an object from index `i` on.
pub open spec fn subs_from(n: INode, i: int, ind: nat) -> Emitted
    decreases n.children.len() - i,
{
    if i < 2 || i >= n.children.len() {
        Ok(Seq::empty())
    } else {
        cat(sub_out(n.children[i], ind), subs_from(n, i + 1, ind))
    }
}

/// `let name = { ... };` followed by a blank line.
#[verifier::opaque]
pub open spec fn object_out(n: INode, indent: nat) -> Emitted {
    if !object_valid(n) {
        Err(ErrKind::InvalidFormShape)
    } else {
        let head = cat(cat(Ok(spacer(indent) + lit("let ")), word_out(n.children[1])), Ok(lit(" = {\n")));
        cat(cat(head, subs_from(n, 2, (indent + 1) as nat)), Ok(spacer(indent) + lit("};\n\n")))
    }
}

/// Tells whether a word is an integer literal.
pub fn is_int(v: &Vec<u8>) -> (r: bool)
    ensures
        r == is_int_word(v@),
{
    let start: usize = if v.len() > 0 && v[0] == 45u8 { 1 } else { 0 };
    if v.len() <= start {
        return false;
    }
    let mut i: usize = start;
    while i < v.len()
        invariant
            start <= i <= v@.len(),
            start == (if v@.len() > 0 && v@[0] == 45 { 1int } else { 0int }),
            forall|j: int| start <= j < i ==> 48 <= #[trigger] v@[j] <= 57,
        decreases v@.len() - i,
    {
        if v[i] < 48u8 || v[i] > 57u8 {
            return false;
        }
        i += 1;
    }
    true
}

impl OBJECT {
    pub fn validate(n: &InterNode) -> (r: Result<(), TVErr>)
        ensures
            r is Ok <==> object_valid(n@),
            r matches Err(e) ==> e.spec_kind() == ErrKind::InvalidFormShape,
    {
        if n.kind != InterKind::Routine || n.children.len() < 2 || n.children[0].kind
            != InterKind::Word || !value_is(&n.children[0].value, "OBJECT") {
            return Err(TVErr::origin(ErrKind::InvalidFormShape, "invalid OBJECT"));
        }
        Ok(())
    }

    pub fn validate_sub_grouping(g: &InterNode) -> (r: Result<(), TVErr>)
        ensures
            r is Ok <==> sub_valid(g@),
            r matches Err(e) ==> e.spec_kind() == ErrKind::InvalidFormShape,
    {
        if g.kind != InterKind::Grouping || g.children.len() < 2 || g.children[0].kind
            != InterKind::Word {
            return Err(TVErr::origin(ErrKind::InvalidFormShape, "invalid OBJECT sub grouping"));
        }
        Ok(())
    }

    /// Writes the indent, the key and the separator that open a sub-grouping's line.
    fn lead(g: &InterNode, indent: u64, arrow: bool, out: &mut CustomBufWriter)
        requires
            sub_valid(g@),
        ensures
            final(out)@ == old(out)@ + spacer(indent as nat) + g@.children[0].value + (if arrow {
                lit(": () => ")
            } else {
                lit(": ")
            }),
    {
        out.w_spacer(indent);
        out.w_bytes(g.children[0].value.as_slice());
        if arrow {
            out.w(": () => ");
        } else {
            out.w(": ");
        }
    }

    /// `KEY: () => "text",` for a text or word argument.
    pub fn return_string(g: &InterNode, indent: u64, out: &mut CustomBufWriter) -> (r: Result<(), TVErr>)
        requires
            sub_valid(g@),
        ensures
            emits(r, old(out)@, final(out)@, keyed_line(g@, indent as nat, true, quoted_out(g@.children[1]))),
    {
        OBJECT::lead(g, indent, true, out);
        match quoted_print(&g.children[1], out) {
            Ok(()) => {},
            Err(e) => { return Err(e); },
        }
        out.w(",\n");
        assert(out@ =~= old(out)@ + (spacer(indent as nat) + g@.children[0].value + lit(": () => ") + quoted_out(g@.children[1])->Ok_0 + lit(",\n")));
        Ok(())
    }

    /// `KEY: () => word,` for a function reference.
    pub fn return_fn(g: &InterNode, indent: u64, out: &mut CustomBufWriter) -> (r: Result<(), TVErr>)
        requires
            sub_valid(g@),
        ensures
            emits(r, old(out)@, final(out)@, keyed_line(g@, indent as nat, true, word_out(g@.children[1]))),
    {
        OBJECT::lead(g, indent, true, out);
        match word_print(&g.children[1], out) {
            Ok(()) => {},
            Err(e) => { return Err(e); },
        }
        out.w(",\n");
        assert(out@ =~= old(out)@ + (spacer(indent as nat) + g@.children[0].value + lit(": () => ") + g@.children[1].value + lit(",\n")));
        Ok(())
    }

    /// Writes an integer argument, or fails with NotAnInteger.
    fn int_print(c: &InterNode, out: &mut CustomBufWriter) -> (r: Result<(), TVErr>)
        ensures
            emits(r, old(out)@, final(out)@, int_arg(c@)),
    {
        if c.kind != InterKind::Word || !is_int(&c.value) {
            return Err(TVErr::origin(ErrKind::NotAnInteger, "not an integer"));
        }
        out.w_bytes(c.value.as_slice());
        Ok(())
    }

    fn int_line(g: &InterNode, indent: u64, arrow: bool, out: &mut CustomBufWriter) -> (r: Result<(), TVErr>)
        requires
            sub_valid(g@),
        ensures
            emits(r, old(out)@, final(out)@, keyed_line(g@, indent as nat, arrow, int_arg(g@.children[1]))),
    {
        OBJECT::lead(g, indent, arrow, out);
        match OBJECT::int_print(&g.children[1], out) {
            Ok(()) => {},
            Err(e) => { return Err(e); },
        }
        out.w(",\n");
        let ghost sep = if arrow { lit(": () => ") } else { lit(": ") };
        assert(out@ =~= old(out)@ + (spacer(indent as nat) + g@.children[0].value + sep + g@.children[1].value + lit(",\n")));
        Ok(())
    }

    /// `KEY: () => n,` for an integer argument.
    pub fn return_int(g: &InterNode, indent: u64, out: &mut CustomBufWriter) -> (r: Result<(), TVErr>)
        requires
            sub_valid(g@),
        ensures
            emits(r, old(out)@, final(out)@, keyed_line(g@, indent as nat, true, int_arg(g@.children[1]))),
    {
        OBJECT::int_line(g, indent, true, out)
    }

    /// `KEY: n,` for an integer argument.
    pub fn mut_int(g: &InterNode, indent: u64, out: &mut CustomBufWriter) -> (r: Result<(), TVErr>)
        requires
            sub_valid(g@),
        ensures
            emits(r, old(out)@, final(out)@, keyed_line(g@, indent as nat, false, int_arg(g@.children[1]))),
    {
        OBJECT::int_line(g, indent, false, out)
    }

    /// `KEY: () => ["a", "b"],` over the remaining arguments.
    pub fn return_string_array(g: &InterNode, indent: u64, out: &mut CustomBufWriter) -> (r: Result<(), TVErr>)
        requires
            sub_valid(g@),
        ensures
            emits(r, old(out)@, final(out)@, keyed_line(g@, indent as nat, true,
                cat(cat(Ok(lit("[")), strings_from(g@, 1)), Ok(lit("]"))))),
    {
        OBJECT::lead(g, indent, true, out);
        out.w("[");
        let ghost start = out@;
        let ghost mut acc: Seq<u8> = Seq::empty();
        let mut i: usize = 1;
        while i < g.children.len()
            invariant
                1 <= i <= g.children@.len(),
                out@ == start + acc,
                strings_from(g@, 1) == cat(Ok(acc), strings_from(g@, i as int)),
            decreases g.children@.len() - i,
        {
            if i > 1 {
                out.w(", ");
            }
            match quoted_print(&g.children[i], out) {
                Ok(()) => {},
                Err(e) => { return Err(e); },
            }
            proof {
                let sep = if i > 1 { lit(", ") } else { Seq::empty() };
                let x = quoted_out(g@.children[i as int])->Ok_0;
                let rest = strings_from(g@, i + 1);
                if rest is Ok {
                    assert(acc + (sep + x + rest->Ok_0) =~= acc + sep + x + rest->Ok_0);
                }
                assert(out@ =~= start + (acc + sep + x));
                acc = acc + sep + x;
            }
            i += 1;
        }
        out.w("]");
        out.w(",\n");
        proof {
            assert(acc + Seq::<u8>::empty() =~= acc);
            assert(out@ =~= old(out)@ + (spacer(indent as nat) + g@.children[0].value + lit(": () => ") + (lit("[") + acc + lit("]")) + lit(",\n")));
        }
        Ok(())
    }

    /// `KEY: { w1: true, w2: true },` over the remaining arguments.
    pub fn mut_bools(g: &InterNode, indent: u64, out: &mut CustomBufWriter) -> (r: Result<(), TVErr>)
        requires
            sub_valid(g@),
        ensures
            emits(r, old(out)@, final(out)@, cat(cat(Ok(spacer(indent as nat) + g@.children[0].value + lit(": { ")),
                bools_from(g@, 1)), Ok(lit(" },\n")))),
    {
        out.w_spacer(indent);
        out.w_bytes(g.children[0].value.as_slice());
        out.w(": { ");
        let ghost start = out@;
        let ghost mut acc: Seq<u8> = Seq::empty();
        let mut i: usize = 1;
        while i < g.children.len()
            invariant
                1 <= i <= g.children@.len(),
                out@ == start + acc,
                bools_from(g@, 1) == cat(Ok(acc), bools_from(g@, i as int)),
            decreases g.children@.len() - i,
        {
            if i > 1 {
                out.w(", ");
            }
            match word_print(&g.children[i], out) {
                Ok(()) => {},
                Err(e) => { return Err(e); },
            }
            out.w(": true");
            proof {
                let sep = if i > 1 { lit(", ") } else { Seq::empty() };
                let x = g@.children[i as int].value;
                let rest = bools_from(g@, i + 1);
                if rest is Ok {
                    assert(acc + (sep + x + lit(": true") + rest->Ok_0) =~= acc + sep + x + lit(": true") + rest->Ok_0);
                }
                assert(out@ =~= start + (acc + sep + x + lit(": true")));
                acc = acc + sep + x + lit(": true");
            }
            i += 1;
        }
        out.w(" },\n");
        proof {
            assert(acc + Seq::<u8>::empty() =~= acc);
            assert(out@ =~= old(out)@ + (spacer(indent as nat) + g@.children[0].value + lit(": { ") + acc + lit(" },\n")));
        }
        Ok(())
    }

    /// Writes one sub-grouping, dispatched on its key.
    pub fn print_sub(g: &InterNode, indent: u64, out: &mut CustomBufWriter) -> (r: Result<(), TVErr>)
        ensures
            emits(r, old(out)@, final(out)@, sub_out(g@, indent as nat)),
    {
        reveal(sub_out);
        match OBJECT::validate_sub_grouping(g) {
            Ok(()) => {},
            Err(e) => { return Err(e); },
        }
        let k = &g.children[0].value;
        let res = if value_is(k, "TEXT") || value_is(k, "DESC") || value_is(k, "LDESC") || value_is(k, "FDESC")
            || value_is(k, "DESCFCN") {
            OBJECT::return_string(g, indent, out)
        } else if value_is(k, "ACTION") || value_is(k, "IN") {
            OBJECT::return_fn(g, indent, out)
        } else if value_is(k, "CAPACITY") || value_is(k, "SIZE") || value_is(k, "VALUE") || value_is(k, "TVALUE") {
            OBJECT::return_int(g, indent, out)
        } else if value_is(k, "SYNONYM") || value_is(k, "ADJECTIVE") {
            OBJECT::return_string_array(g, indent, out)
        } else if value_is(k, "FLAGS") || value_is(k, "VTYPE") {
            OBJECT::mut_bools(g, indent, out)
        } else if value_is(k, "STRENGTH") {
            OBJECT::mut_int(g, indent, out)
        } else {
            return Err(TVErr::origin(ErrKind::UnknownSubgrouping, "unknown sub grouping in OBJECT"));
        };
        match res {
            Ok(()) => Ok(()),
            Err(e) => {
                let mut m: Vec<u8> = Vec::new();
                push_str(&mut m, "in sub-grouping ");
                push_bytes(&mut m, k.as_slice());
                Err(TVErr::wrap_bytes(e, m))
            },
        }
    }

    pub fn print(n: &InterNode, indent: u64, out: &mut CustomBufWriter) -> (r: Result<(), TVErr>)
        requires
            indent < u64::MAX,
        ensures
            emits(r, old(out)@, final(out)@, object_out(n@, indent as nat)),
    {
        reveal(object_out);
        match OBJECT::validate(n) {
            Ok(()) => {},
            Err(e) => { return Err(e); },
        }
        out.w_spacer(indent);
        out.w("let ");
        match word_print(&n.children[1], out) {
            Ok(()) => {},
            Err(e) => { return Err(e); },
        }
        out.w(" = {\n");
        let ghost start = out@;
        let ghost mut acc: Seq<u8> = Seq::empty();
        let mut i: usize = 2;
        while i < n.children.len()
            invariant
                2 <= i <= n.children@.len(),
                indent < u64::MAX,
                object_valid(n@),
                word_out(n@.children[1]) is Ok,
                out@ == start + acc,
                subs_from(n@, 2, (indent + 1) as nat) == cat(Ok(acc), subs_from(n@, i as int, (indent + 1) as nat)),
            decreases n.children@.len() - i,
        {
            let res = OBJECT::print_sub(&n.children[i], indent + 1, out);
            proof {
                assert(n@.children[i as int] == n.children@[i as int]@);
            }
            match res {
                Ok(()) => {},
                Err(e) => {
                    reveal(object_out);
                    assert(subs_from(n@, i as int, (indent + 1) as nat) is Err);
                    return Err(e);
                },
            }
            proof {
                let x = sub_out(n@.children[i as int], (indent + 1) as nat)->Ok_0;
                let rest = subs_from(n@, i + 1, (indent + 1) as nat);
                if rest is Ok {
                    assert(acc + (x + rest->Ok_0) =~= acc + x + rest->Ok_0);
                }
                acc = acc + x;
            }
            i += 1;
        }
        out.w_spacer(indent);
        out.w("};\n\n");
        proof {
            assert(acc + Seq::<u8>::empty() =~= acc);
            assert(out@ =~= old(out)@ + (spacer(indent as nat) + lit("let ") + n@.children[1].value + lit(" = {\n") + acc + (spacer(indent as nat) + lit("};\n\n"))));
        }
        Ok(())
    }
}

} // verus!
