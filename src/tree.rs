//! The source tree and the builder that nests tokens into it.
use vstd::prelude::*;
use crate::diagnostic::{push_decimal, push_str, ErrKind, TVErr};
use crate::lexer::{lex_from, next_lex, tok_of, LexStep, Lexeme, TokenGenerator, lemma_next_lex_bounds};
use crate::token::{Location, TokV, Token, TokenKind};

verus! {

#[derive(Clone, Copy, Debug, PartialEq, Eq, Structural)]
pub enum ZilNodeType {
    Root,
    Routine,
    Grouping,
    Text,
    Word,
    Quote,
    Comment,
}

/// A node of the source tree. Word and Text nodes hold their one token;
/// Routine and Grouping nodes hold the token that opened them.
#[derive(Debug)]
pub struct ZilNode {
    pub kind: ZilNodeType,
    pub children: Vec<ZilNode>,
    pub tokens: Vec<Token>,
}

/// The mathematical form of a source node.
pub struct SNode {
    pub kind: ZilNodeType,
    pub children: Seq<SNode>,
    pub tokens: Seq<TokV>,
}

impl View for ZilNode {
    type V = SNode;

    open spec fn view(&self) -> SNode
        decreases self,
    {
        SNode {
            kind: self.kind,
            children: Seq::new(
                self.children@.len(),
                |i: int|
                    if 0 <= i < self.children@.len() {
                        self.children@[i].view()
                    } else {
                        empty_root()
                    },
            ),
            tokens: Seq::new(self.tokens@.len(), |i: int| self.tokens@[i]@),
        }
    }
}

/// The view keeps the kind, the tokens and the number of children.
pub broadcast proof fn lemma_zil_view_fields(n: &ZilNode)
    ensures
        #[trigger] n@.kind == n.kind,
        n@.children.len() == n.children@.len(),
        n@.tokens.len() == n.tokens@.len(),
        forall|i: int| 0 <= i < n.tokens@.len() ==> #[trigger] n@.tokens[i] == n.tokens@[i]@,
{
}

/// The view of a child is the child of the view.
pub broadcast proof fn lemma_zil_view_child(n: &ZilNode, i: int)
    requires
        0 <= i < n.children@.len(),
    ensures
        #[trigger] n@.children[i] == n.children@[i]@,
{
}

pub broadcast group group_zil_view {
    lemma_zil_view_fields,
    lemma_zil_view_child,
}

pub open spec fn empty_root() -> SNode {
    SNode { kind: ZilNodeType::Root, children: Seq::empty(), tokens: Seq::empty() }
}

pub open spec fn add_child(n: SNode, c: SNode) -> SNode {
    SNode { kind: n.kind, children: n.children.push(c), tokens: n.tokens }
}

pub open spec fn opened(kind: ZilNodeType, t: TokV) -> SNode {
    SNode { kind, children: Seq::empty(), tokens: seq![t] }
}

/// Pops the innermost open node and appends it to the one below.
pub open spec fn close(stack: Seq<SNode>) -> Seq<SNode> {
    let n = stack.len() as int;
    stack.drop_last().update(n - 2, add_child(stack[n - 2], stack[n - 1]))
}

/// The stack of open nodes after one token.
pub open spec fn step(stack: Seq<SNode>, t: TokV) -> Result<Seq<SNode>, ErrKind> {
    let n = stack.len() as int;
    if n == 0 {
        Err(ErrKind::UnmatchedClose)
    } else {
        match t.kind {
            TokenKind::LeftAngle => Ok(stack.push(opened(ZilNodeType::Routine, t))),
            TokenKind::LeftParen => Ok(stack.push(opened(ZilNodeType::Grouping, t))),
            TokenKind::RightAngle => if n >= 2 && stack[n - 1].kind == ZilNodeType::Routine {
                Ok(close(stack))
            } else {
                Err(ErrKind::UnmatchedClose)
            },
            TokenKind::RightParen => if n >= 2 && stack[n - 1].kind == ZilNodeType::Grouping {
                Ok(close(stack))
            } else {
                Err(ErrKind::UnmatchedClose)
            },
            TokenKind::Word => Ok(stack.update(n - 1, add_child(stack[n - 1], opened(ZilNodeType::Word, t)))),
            TokenKind::Text => Ok(stack.update(n - 1, add_child(stack[n - 1], opened(ZilNodeType::Text, t)))),
            _ => Ok(stack),
        }
    }
}

/// Reads tokens from position `p` with the given open nodes, to the end.
pub open spec fn run(s: Seq<u8>, file: usize, p: int, stack: Seq<SNode>) -> Result<SNode, ErrKind>
    decreases s.len() - p,
{
    match next_lex(s, p) {
        LexStep::Unterminated(_) => Err(ErrKind::UnterminatedText),
        LexStep::End(_) => if stack.len() == 1 {
            Ok(stack[0])
        } else {
            Err(ErrKind::UnclosedForm)
        },
        LexStep::Tok(l) => if p < l.end <= s.len() {
            match step(stack, tok_of(s, file, l)) {
                Ok(st) => run(s, file, l.end, st),
                Err(k) => Err(k),
            }
        } else {
            Err(ErrKind::UnterminatedText)
        },
    }
}

/// The source tree of a whole input.
pub open spec fn parse(s: Seq<u8>, file: usize) -> Result<SNode, ErrKind> {
    run(s, file, 0, seq![empty_root()])
}

pub open spec fn views(v: Seq<ZilNode>) -> Seq<SNode> {
    Seq::new(v.len(), |i: int| v[i]@)
}

impl ZilNode {
    /// An empty Root.
    pub fn new() -> (r: ZilNode)
        ensures
            r@ == empty_root(),
    {
        let r = ZilNode { kind: ZilNodeType::Root, children: Vec::new(), tokens: Vec::new() };
        assert(r@.children =~= Seq::<SNode>::empty());
        assert(r@.tokens =~= Seq::<TokV>::empty());
        r
    }

    fn opened(kind: ZilNodeType, t: Token) -> (r: ZilNode)
        ensures
            r@ == opened(kind, t@),
    {
        let mut tokens: Vec<Token> = Vec::new();
        tokens.push(t);
        let r = ZilNode { kind, children: Vec::new(), tokens };
        assert(r@.tokens =~= seq![t@]);
        assert(r@.children =~= Seq::<SNode>::empty());
        r
    }

    /// Appends a child.
    pub fn add_child(&mut self, c: ZilNode)
        ensures
            final(self)@ == add_child(old(self)@, c@),
    {
        self.children.push(c);
        assert(self@.children =~= old(self)@.children.push(c@));
        assert(self@.tokens =~= old(self)@.tokens);
    }
}

/// Builds the source tree from the tokens of `tokens`, nesting them under the
/// node in `root` (normally an empty Root).
pub fn build_tree(tokens: &mut TokenGenerator, root: &mut ZilNode) -> (r: Result<(), TVErr>)
    requires
        old(tokens).wf(),
    ensures
        final(tokens).wf(),
        match run(old(tokens).input(), old(tokens).file(), old(tokens).position(), seq![old(root)@]) {
            Ok(t) => r is Ok && final(root)@ == t,
            Err(k) => r matches Err(e) && e.spec_kind() == k,
        },
{
    let ghost s = tokens.input();
    let ghost file = tokens.file();
    let ghost goal = run(s, file, tokens.position(), seq![root@]);
    let mut top = ZilNode::new();
    core::mem::swap(&mut top, root);
    let mut stack: Vec<ZilNode> = Vec::new();
    stack.push(top);
    proof { tokens.lemma_wf_position(); }
    assert(views(stack@) =~= seq![old(root)@]);
    loop
        invariant
            tokens.wf(),
            tokens.input() == s,
            tokens.file() == file,
            stack@.len() >= 1,
            goal == run(s, file, tokens.position(), views(stack@)),
            goal == run(old(tokens).input(), old(tokens).file(), old(tokens).position(), seq![old(root)@]),
        decreases s.len() - tokens.position(),
    {
        let ghost p = tokens.position();
        proof {
            tokens.lemma_wf_position();
            lemma_next_lex_bounds(s, p);
        }
        let t = match tokens.next() {
            Ok(t) => t,
            Err(e) => { return Err(e); },
        };
        let ghost tv = t@;
        let n = stack.len();
        let ghost before = views(stack@);
        match t.kind {
            TokenKind::Eof => {
                if n != 1 {
                    return Err(TVErr::origin(ErrKind::UnclosedForm, "the input ends inside a form"));
                }
                let mut last = stack.pop().unwrap();
                core::mem::swap(&mut last, root);
                return Ok(());
            },
            TokenKind::LeftAngle => {
                stack.push(ZilNode::opened(ZilNodeType::Routine, t));
            },
            TokenKind::LeftParen => {
                stack.push(ZilNode::opened(ZilNodeType::Grouping, t));
            },
            TokenKind::RightAngle | TokenKind::RightParen => {
                let want = if t.kind == TokenKind::RightAngle { ZilNodeType::Routine } else { ZilNodeType::Grouping };
                if n < 2 || stack[n - 1].kind != want {
                    return Err(unmatched(&t.loc));
                }
                let c = stack.pop().unwrap();
                let mut parent = stack.pop().unwrap();
                parent.add_child(c);
                stack.push(parent);
            },
            TokenKind::Word | TokenKind::Text => {
                let kind = if t.kind == TokenKind::Word { ZilNodeType::Word } else { ZilNodeType::Text };
                let leaf = ZilNode::opened(kind, t);
                let mut parent = stack.pop().unwrap();
                parent.add_child(leaf);
                stack.push(parent);
            },
            _ => {},
        }
        proof {
            assert(step(before, tv) is Ok);
            assert(views(stack@) =~= step(before, tv)->Ok_0);
        }
    }
}

/// An UnmatchedClose diagnostic at a closing delimiter.
fn unmatched(loc: &Location) -> (r: TVErr)
    ensures
        r.spec_kind() == ErrKind::UnmatchedClose,
{
    let mut m: Vec<u8> = Vec::new();
    push_str(&mut m, "unmatched close at ");
    push_decimal(&mut m, loc.line);
    push_str(&mut m, ":");
    push_decimal(&mut m, loc.column);
    TVErr::wrap_bytes(TVErr::origin(ErrKind::UnmatchedClose, "a closing delimiter does not match the open form"), m)
}


/// The number of lexemes of a kind.
pub open spec fn count_kind(ls: Seq<Lexeme>, k: TokenKind) -> nat
    decreases ls.len(),
{
    if ls.len() == 0 {
        0
    } else {
        count_kind(ls.drop_last(), k) + (if ls.last().kind == k { 1nat } else { 0nat })
    }
}

/// The number of open nodes of a kind above the bottom of the stack.
pub open spec fn open_count(stack: Seq<SNode>, k: ZilNodeType) -> nat
    decreases stack.len(),
{
    if stack.len() <= 1 {
        0
    } else {
        open_count(stack.drop_last(), k) + (if stack.last().kind == k { 1nat } else { 0nat })
    }
}

proof fn lemma_count_prepend(l: Lexeme, rest: Seq<Lexeme>, k: TokenKind)
    ensures
        count_kind(seq![l] + rest, k) == count_kind(rest, k) + (if l.kind == k { 1nat } else { 0nat }),
    decreases rest.len(),
{
    if rest.len() > 0 {
        lemma_count_prepend(l, rest.drop_last(), k);
        assert((seq![l] + rest).drop_last() =~= seq![l] + rest.drop_last());
        assert((seq![l] + rest).last() == rest.last());
    } else {
        assert((seq![l] + rest).drop_last() =~= Seq::<Lexeme>::empty());
        assert((seq![l] + rest).last() == l);
        assert(count_kind(Seq::<Lexeme>::empty(), k) == 0);
    }
}

proof fn lemma_open_count_update(stack: Seq<SNode>, i: int, x: SNode, k: ZilNodeType)
    requires
        0 <= i < stack.len(),
        x.kind == stack[i].kind,
    ensures
        open_count(stack.update(i, x), k) == open_count(stack, k),
    decreases stack.len(),
{
    if stack.len() > 1 {
        if i < stack.len() - 1 {
            lemma_open_count_update(stack.drop_last(), i, x, k);
            assert(stack.update(i, x).drop_last() =~= stack.drop_last().update(i, x));
        } else {
            assert(stack.update(i, x).drop_last() =~= stack.drop_last());
        }
    }
}

/// After a token, the count of open forms of each kind changes by what the
/// token opened or closed.
proof fn lemma_step_counts(stack: Seq<SNode>, t: TokV)
    requires
        step(stack, t) is Ok,
    ensures
        ({
            let st = step(stack, t)->Ok_0;
            &&& open_count(stack, ZilNodeType::Routine) + (if t.kind == TokenKind::LeftAngle { 1nat } else { 0nat })
                == open_count(st, ZilNodeType::Routine) + (if t.kind == TokenKind::RightAngle { 1nat } else { 0nat })
            &&& open_count(stack, ZilNodeType::Grouping) + (if t.kind == TokenKind::LeftParen { 1nat } else { 0nat })
                == open_count(st, ZilNodeType::Grouping) + (if t.kind == TokenKind::RightParen { 1nat } else { 0nat })
            &&& st.len() >= 1
            &&& st[0].kind == stack[0].kind
        }),
{
    let n = stack.len() as int;
    let st = step(stack, t)->Ok_0;
    match t.kind {
        TokenKind::LeftAngle | TokenKind::LeftParen => {
            assert(st.drop_last() =~= stack);
        },
        TokenKind::RightAngle | TokenKind::RightParen => {
            let d = stack.drop_last();
            lemma_open_count_update(d, n - 2, add_child(stack[n - 2], stack[n - 1]), ZilNodeType::Routine);
            lemma_open_count_update(d, n - 2, add_child(stack[n - 2], stack[n - 1]), ZilNodeType::Grouping);
        },
        TokenKind::Word | TokenKind::Text => {
            let kind = if t.kind == TokenKind::Word { ZilNodeType::Word } else { ZilNodeType::Text };
            lemma_open_count_update(stack, n - 1, add_child(stack[n - 1], opened(kind, t)), ZilNodeType::Routine);
            lemma_open_count_update(stack, n - 1, add_child(stack[n - 1], opened(kind, t)), ZilNodeType::Grouping);
        },
        _ => {},
    }
}

/// Where reading from `p` succeeds, the tokens from `p` close exactly the
/// forms they open plus those already open.
proof fn lemma_run_counts(s: Seq<u8>, file: usize, p: int, stack: Seq<SNode>)
    requires
        0 <= p <= s.len(),
        stack.len() >= 1,
        run(s, file, p, stack) is Ok,
    ensures
        lex_from(s, p) is Some,
        count_kind(lex_from(s, p)->Some_0, TokenKind::RightAngle) == count_kind(lex_from(s, p)->Some_0,
            TokenKind::LeftAngle) + open_count(stack, ZilNodeType::Routine),
        count_kind(lex_from(s, p)->Some_0, TokenKind::RightParen) == count_kind(lex_from(s, p)->Some_0,
            TokenKind::LeftParen) + open_count(stack, ZilNodeType::Grouping),
    decreases s.len() - p,
{
    lemma_next_lex_bounds(s, p);
    match next_lex(s, p) {
        LexStep::Tok(l) => {
            let t = tok_of(s, file, l);
            let st = step(stack, t)->Ok_0;
            lemma_step_counts(stack, t);
            lemma_run_counts(s, file, l.end, st);
            let rest = lex_from(s, l.end)->Some_0;
            lemma_count_prepend(l, rest, TokenKind::RightAngle);
            lemma_count_prepend(l, rest, TokenKind::LeftAngle);
            lemma_count_prepend(l, rest, TokenKind::RightParen);
            lemma_count_prepend(l, rest, TokenKind::LeftParen);
        },
        _ => {
            assert(lex_from(s, p)->Some_0.len() == 0);
        },
    }
}

/// In an input that builds, `<` and `>` occur equally often as tokens, and so
/// do `(` and `)`.
pub proof fn lemma_brackets_balance(s: Seq<u8>, file: usize)
    requires
        parse(s, file) is Ok,
    ensures
        lex_from(s, 0) is Some,
        count_kind(lex_from(s, 0)->Some_0, TokenKind::LeftAngle) == count_kind(lex_from(s, 0)->Some_0,
            TokenKind::RightAngle),
        count_kind(lex_from(s, 0)->Some_0, TokenKind::LeftParen) == count_kind(lex_from(s, 0)->Some_0,
            TokenKind::RightParen),
{
    lemma_run_counts(s, file, 0, seq![empty_root()]);
}


/// No node below `n` is a Root.
pub open spec fn no_root_below(n: SNode) -> bool
    decreases n,
{
    forall|i: int| 0 <= i < n.children.len() ==> (#[trigger] n.children[i]).kind != ZilNodeType::Root
        && no_root_below(n.children[i])
}

/// A stack of open nodes with a Root at the bottom and nowhere else.
pub open spec fn stack_ok(stack: Seq<SNode>) -> bool {
    &&& stack.len() >= 1
    &&& stack[0].kind == ZilNodeType::Root
    &&& forall|i: int| 1 <= i < stack.len() ==> (#[trigger] stack[i]).kind != ZilNodeType::Root
    &&& forall|i: int| 0 <= i < stack.len() ==> no_root_below(#[trigger] stack[i])
}

proof fn lemma_add_child_no_root(p: SNode, c: SNode)
    requires
        no_root_below(p),
        no_root_below(c),
        c.kind != ZilNodeType::Root,
    ensures
        no_root_below(add_child(p, c)),
{
    let q = add_child(p, c);
    assert forall|i: int| 0 <= i < q.children.len() implies (#[trigger] q.children[i]).kind != ZilNodeType::Root
        && no_root_below(q.children[i]) by {
        if i < p.children.len() {
            assert(q.children[i] == p.children[i]);
        } else {
            assert(q.children[i] == c);
        }
    }
}

proof fn lemma_step_stack_ok(stack: Seq<SNode>, t: TokV)
    requires
        stack_ok(stack),
        step(stack, t) is Ok,
    ensures
        stack_ok(step(stack, t)->Ok_0),
{
    let n = stack.len() as int;
    let st = step(stack, t)->Ok_0;
    match t.kind {
        TokenKind::LeftAngle | TokenKind::LeftParen => {
            let k = if t.kind == TokenKind::LeftAngle { ZilNodeType::Routine } else { ZilNodeType::Grouping };
            assert(no_root_below(opened(k, t)));
            assert(st[n] == opened(k, t));
        },
        TokenKind::RightAngle | TokenKind::RightParen => {
            assert(no_root_below(stack[n - 2]));
            assert(no_root_below(stack[n - 1]));
            assert(stack[n - 1].kind != ZilNodeType::Root);
            lemma_add_child_no_root(stack[n - 2], stack[n - 1]);
            assert forall|i: int| 0 <= i < st.len() implies no_root_below(#[trigger] st[i]) by {
                if i != n - 2 {
                    assert(st[i] == stack[i]);
                }
            }
        },
        TokenKind::Word | TokenKind::Text => {
            let k = if t.kind == TokenKind::Word { ZilNodeType::Word } else { ZilNodeType::Text };
            assert(no_root_below(opened(k, t)));
            assert(no_root_below(stack[n - 1]));
            lemma_add_child_no_root(stack[n - 1], opened(k, t));
            assert forall|i: int| 0 <= i < st.len() implies no_root_below(#[trigger] st[i]) by {
                if i != n - 1 {
                    assert(st[i] == stack[i]);
                }
            }
        },
        _ => {},
    }
}

proof fn lemma_run_one_root(s: Seq<u8>, file: usize, p: int, stack: Seq<SNode>)
    requires
        0 <= p <= s.len(),
        stack_ok(stack),
        run(s, file, p, stack) is Ok,
    ensures
        run(s, file, p, stack)->Ok_0.kind == ZilNodeType::Root,
        no_root_below(run(s, file, p, stack)->Ok_0),
    decreases s.len() - p,
{
    lemma_next_lex_bounds(s, p);
    match next_lex(s, p) {
        LexStep::Tok(l) => {
            let t = tok_of(s, file, l);
            lemma_step_stack_ok(stack, t);
            lemma_run_one_root(s, file, l.end, step(stack, t)->Ok_0);
        },
        _ => {
            assert(no_root_below(stack[0]));
        },
    }
}

/// The tree built from an input has a Root at the top and no Root anywhere
/// below it: exactly one Root.
pub proof fn lemma_parse_one_root(s: Seq<u8>, file: usize)
    requires
        parse(s, file) is Ok,
    ensures
        parse(s, file)->Ok_0.kind == ZilNodeType::Root,
        no_root_below(parse(s, file)->Ok_0),
{
    assert(no_root_below(empty_root()));
    lemma_run_one_root(s, file, 0, seq![empty_root()]);
}

} // verus!
