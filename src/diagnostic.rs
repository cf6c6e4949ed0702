//! Chained diagnostics: an origin message and the contexts that wrapped it.
use vstd::prelude::*;
use vstd::string::StringSliceAdditionalSpecFns;

verus! {

/// The kind of failure, fixed at the origin of a chain.
#[derive(Clone, Copy, Debug, PartialEq, Eq, Structural)]
pub enum ErrKind {
    UnterminatedText,
    UnmatchedClose,
    UnclosedForm,
    InvalidFormShape,
    UnknownForm,
    UnknownSubgrouping,
    NotAnInteger,
    IOError,
}

/// A tree validation error: its message and the diagnostic it wraps.
#[derive(Debug)]
pub struct TVErr {
    kind: ErrKind,
    msg: Vec<u8>,
    from: Option<Box<TVErr>>,
}

/// The bytes of a string literal.
pub open spec fn lit(s: &str) -> Seq<u8> {
    s.spec_bytes()
}

/// The name of an error kind, which starts every origin message of that kind.
pub open spec fn kind_name(k: ErrKind) -> Seq<u8> {
    match k {
        ErrKind::UnterminatedText => lit("UnterminatedText"),
        ErrKind::UnmatchedClose => lit("UnmatchedClose"),
        ErrKind::UnclosedForm => lit("UnclosedForm"),
        ErrKind::InvalidFormShape => lit("InvalidFormShape"),
        ErrKind::UnknownForm => lit("UnknownForm"),
        ErrKind::UnknownSubgrouping => lit("UnknownSubgrouping"),
        ErrKind::NotAnInteger => lit("NotAnInteger"),
        ErrKind::IOError => lit("IOError"),
    }
}

/// Decimal digits of `n`, most significant first.
pub open spec fn decimal(n: nat) -> Seq<u8>
    decreases n,
{
    if n < 10 {
        seq![(48 + n) as u8]
    } else {
        decimal(n / 10).push((48 + n % 10) as u8)
    }
}

/// Appends the bytes of a string to a byte vector.
pub fn push_str(out: &mut Vec<u8>, s: &str)
    ensures
        final(out)@ == old(out)@ + lit(s),
{
    let b = s.as_bytes();
    let mut i: usize = 0;
    while i < b.len()
        invariant
            i <= b@.len(),
            b@ == lit(s),
            out@ == old(out)@ + b@.subrange(0, i as int),
        decreases b@.len() - i,
    {
        out.push(b[i]);
        i += 1;
        assert(out@ =~= old(out)@ + b@.subrange(0, i as int));
    }
    assert(b@.subrange(0, i as int) =~= b@);
}

/// Appends a byte sequence to a byte vector.
pub fn push_bytes(out: &mut Vec<u8>, b: &[u8])
    ensures
        final(out)@ == old(out)@ + b@,
{
    let mut i: usize = 0;
    while i < b.len()
        invariant
            i <= b@.len(),
            out@ == old(out)@ + b@.subrange(0, i as int),
        decreases b@.len() - i,
    {
        out.push(b[i]);
        i += 1;
        assert(out@ =~= old(out)@ + b@.subrange(0, i as int));
    }
    assert(b@.subrange(0, i as int) =~= b@);
}

/// Appends the decimal form of `n`.
pub fn push_decimal(out: &mut Vec<u8>, n: usize)
    ensures
        final(out)@ == old(out)@ + decimal(n as nat),
    decreases n,
{
    if n >= 10 {
        push_decimal(out, n / 10);
    }
    out.push((48 + n % 10) as u8);
    assert(out@ =~= old(out)@ + decimal(n as nat));
}

impl TVErr {
    /// Messages of the chain, innermost first.
    pub closed spec fn chain(&self) -> Seq<Seq<u8>>
        decreases self,
    {
        match &self.from {
            Some(b) => b.chain().push(self.msg@),
            None => seq![self.msg@],
        }
    }

    pub closed spec fn spec_kind(&self) -> ErrKind {
        self.kind
    }

    /// Starts a chain with the given kind; the message is the kind's name,
    /// a colon and a space, then `msg`.
    pub fn origin(kind: ErrKind, msg: &str) -> (r: TVErr)
        ensures
            r.spec_kind() == kind,
            r.chain() == seq![kind_name(kind) + lit(": ") + lit(msg)],
    {
        let mut m: Vec<u8> = Vec::new();
        let name = match kind {
            ErrKind::UnterminatedText => "UnterminatedText",
            ErrKind::UnmatchedClose => "UnmatchedClose",
            ErrKind::UnclosedForm => "UnclosedForm",
            ErrKind::InvalidFormShape => "InvalidFormShape",
            ErrKind::UnknownForm => "UnknownForm",
            ErrKind::UnknownSubgrouping => "UnknownSubgrouping",
            ErrKind::NotAnInteger => "NotAnInteger",
            ErrKind::IOError => "IOError",
        };
        push_str(&mut m, name);
        push_str(&mut m, ": ");
        push_str(&mut m, msg);
        assert(m@ =~= kind_name(kind) + lit(": ") + lit(msg));
        TVErr { kind, msg: m, from: None }
    }

    /// Adds a context message around an existing diagnostic; the kind is kept.
    pub fn wrap(from: TVErr, msg: &str) -> (r: TVErr)
        ensures
            r.spec_kind() == from.spec_kind(),
            r.chain() == from.chain().push(lit(msg)),
    {
        let mut m: Vec<u8> = Vec::new();
        push_str(&mut m, msg);
        TVErr::wrap_bytes(from, m)
    }

    /// Adds a context message given as bytes.
    pub fn wrap_bytes(from: TVErr, msg: Vec<u8>) -> (r: TVErr)
        ensures
            r.spec_kind() == from.spec_kind(),
            r.chain() == from.chain().push(msg@),
    {
        let k = from.kind;
        TVErr { kind: k, msg, from: Some(Box::new(from)) }
    }

    pub fn kind(&self) -> (r: ErrKind)
        ensures
            r == self.spec_kind(),
    {
        self.kind
    }

    /// Number of messages in the chain.
    pub fn depth(&self) -> (r: usize)
        requires
            self.chain().len() <= usize::MAX,
        ensures
            r == self.chain().len(),
        decreases self,
    {
        match &self.from {
            Some(b) => {
                proof { lemma_chain_nonempty(b); }
                b.depth() + 1
            },
            None => 1,
        }
    }

    /// The messages, innermost first.
    pub fn messages(&self) -> (r: Vec<Vec<u8>>)
        ensures
            r@.len() == self.chain().len(),
            forall|i: int| 0 <= i < r@.len() ==> #[trigger] r@[i]@ == self.chain()[i],
        decreases self,
    {
        match &self.from {
            Some(b) => {
                let mut v = b.messages();
                v.push(self.msg.clone());
                v
            },
            None => {
                let mut v: Vec<Vec<u8>> = Vec::new();
                v.push(self.msg.clone());
                v
            },
        }
    }

    /// The chain as a trace: one line per message, innermost first.
    pub fn render(&self) -> (r: Vec<u8>)
        ensures
            r@ == render_lines(self.chain()),
        decreases self,
    {
        match &self.from {
            Some(b) => {
                let mut v = b.render();
                proof {
                    lemma_chain_nonempty(b);
                    assert(self.chain().drop_last() =~= b.chain());
                }
                v.push(10u8);
                push_bytes(&mut v, self.msg.as_slice());
                v
            },
            None => self.msg.clone(),
        }
    }
}

/// Messages joined by newlines.
pub open spec fn render_lines(c: Seq<Seq<u8>>) -> Seq<u8>
    decreases c.len(),
{
    if c.len() <= 1 {
        if c.len() == 1 { c[0] } else { Seq::empty() }
    } else {
        render_lines(c.drop_last()).push(10u8) + c.last()
    }
}

proof fn lemma_chain_nonempty(e: &TVErr)
    ensures
        e.chain().len() >= 1,
    decreases e,
{
    match &e.from {
        Some(b) => lemma_chain_nonempty(b),
        None => {},
    }
}

} // verus!
