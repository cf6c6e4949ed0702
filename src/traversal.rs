//! Pattern matching over source trees, and the search for INSERT-FILE forms.
use vstd::prelude::*;
use crate::diagnostic::{lit, push_str};
use crate::token::{Location, TokV, Token, TokenKind};
use crate::tree::{SNode, ZilNode, ZilNodeType};

verus! {

broadcast use crate::tree::group_zil_view;

/// `actual` matches the pattern `fake`: the same kind at every node of the
/// pattern, the pattern's tokens (kind and value) as a prefix of the actual
/// node's, and each child of the pattern matched by the child at that index.
/// The actual tree may have more children or tokens than the pattern.
pub open spec fn tree_matches(actual: SNode, fake: SNode) -> bool
    decreases fake,
{
    &&& actual.kind == fake.kind
    &&& actual.children.len() >= fake.children.len()
    &&& actual.tokens.len() >= fake.tokens.len()
    &&& forall|i: int| 0 <= i < fake.tokens.len() ==> (#[trigger] actual.tokens[i]).kind == fake.tokens[i].kind
        && actual.tokens[i].value == fake.tokens[i].value
    &&& forall|i: int| 0 <= i < fake.children.len() ==> tree_matches(actual.children[i], #[trigger] fake.children[i])
}

fn bytes_eq(a: &Vec<u8>, b: &Vec<u8>) -> (r: bool)
    ensures
        r == (a@ == b@),
{
    if a.len() != b.len() {
        return false;
    }
    let mut i: usize = 0;
    while i < a.len()
        invariant
            i <= a@.len(),
            a@.len() == b@.len(),
            a@.subrange(0, i as int) == b@.subrange(0, i as int),
        decreases a@.len() - i,
    {
        if a[i] != b[i] {
            assert(a@[i as int] != b@[i as int]);
            return false;
        }
        i += 1;
        assert(a@.subrange(0, i as int) =~= b@.subrange(0, i as int));
    }
    assert(a@ =~= a@.subrange(0, i as int));
    assert(b@ =~= b@.subrange(0, i as int));
    true
}

/// Tells whether `actual` matches the pattern `fake`.
pub fn tree_compare(actual: &ZilNode, fake: &ZilNode) -> (r: bool)
    ensures
        r == tree_matches(actual@, fake@),
    decreases fake,
{
    if actual.kind != fake.kind || actual.children.len() < fake.children.len() || actual.tokens.len() < fake.tokens.len() {
        return false;
    }
    let mut i: usize = 0;
    while i < fake.tokens.len()
        invariant
            i <= fake.tokens@.len() <= actual.tokens@.len(),
            forall|j: int| 0 <= j < i ==> (#[trigger] actual@.tokens[j]).kind == fake@.tokens[j].kind
                && actual@.tokens[j].value == fake@.tokens[j].value,
        decreases fake.tokens@.len() - i,
    {
        if actual.tokens[i].kind != fake.tokens[i].kind || !bytes_eq(&actual.tokens[i].value, &fake.tokens[i].value) {
            assert(actual@.tokens[i as int] == actual.tokens@[i as int]@);
            return false;
        }
        i += 1;
    }
    let mut k: usize = 0;
    while k < fake.children.len()
        invariant
            k <= fake.children@.len() <= actual.children@.len(),
            actual.kind == fake.kind,
            fake.tokens@.len() <= actual.tokens@.len(),
            forall|j: int| 0 <= j < fake.tokens@.len() ==> (#[trigger] actual@.tokens[j]).kind == fake@.tokens[j].kind
                && actual@.tokens[j].value == fake@.tokens[j].value,
            forall|j: int| 0 <= j < k ==> tree_matches(actual@.children[j], #[trigger] fake@.children[j]),
        decreases fake.children@.len() - k,
    {
        let m = tree_compare(&actual.children[k], &fake.children[k]);
        assert(actual@.children[k as int] == actual.children@[k as int]@);
        assert(fake@.children[k as int] == fake.children@[k as int]@);
        if !m {
            return false;
        }
        k += 1;
    }
    true
}

/// The pattern `<INSERT-FILE "..." T>`; its Text matches any text.
pub open spec fn insert_pattern() -> SNode {
    let loc = Location { file: 0, line: 0, column: 0 };
    SNode {
        kind: ZilNodeType::Routine,
        children: seq![
            SNode { kind: ZilNodeType::Word, children: Seq::empty(), tokens: seq![TokV { kind: TokenKind::Word, value: lit("INSERT-FILE"), loc }] },
            SNode { kind: ZilNodeType::Text, children: Seq::empty(), tokens: Seq::empty() },
            SNode { kind: ZilNodeType::Word, children: Seq::empty(), tokens: seq![TokV { kind: TokenKind::Word, value: lit("T"), loc }] },
        ],
        tokens: Seq::empty(),
    }
}

/// The file named by a matched INSERT-FILE form.
pub open spec fn file_of(n: SNode) -> Seq<u8> {
    if n.children.len() >= 2 && n.children[1].tokens.len() >= 1 {
        n.children[1].tokens[0].value
    } else {
        Seq::empty()
    }
}

/// The files named by INSERT-FILE forms in `n`, in order; a matched form is
/// not searched further.
pub open spec fn found_files(n: SNode) -> Seq<Seq<u8>>
    decreases n, n.children.len() + 1,
{
    if tree_matches(n, insert_pattern()) {
        seq![file_of(n)]
    } else {
        files_from(n, 0)
    }
}

pub open spec fn files_from(n: SNode, i: int) -> Seq<Seq<u8>>
    decreases n, n.children.len() - i,
{
    if i < 0 || i >= n.children.len() {
        Seq::empty()
    } else {
        found_files(n.children[i]) + files_from(n, i + 1)
    }
}

pub open spec fn names(v: Seq<Vec<u8>>) -> Seq<Seq<u8>> {
    v.map_values(|x: Vec<u8>| x@)
}

fn word_node(s: &str) -> (r: ZilNode)
    ensures
        r@ == (SNode { kind: ZilNodeType::Word, children: Seq::empty(), tokens: seq![TokV { kind: TokenKind::Word, value: lit(s), loc: Location { file: 0, line: 0, column: 0 } }] }),
{
    let mut value: Vec<u8> = Vec::new();
    push_str(&mut value, s);
    let mut tokens: Vec<Token> = Vec::new();
    tokens.push(Token { kind: TokenKind::Word, value, loc: Location { file: 0, line: 0, column: 0 } });
    let r = ZilNode { kind: ZilNodeType::Word, children: Vec::new(), tokens };
    assert(r@.children =~= Seq::<SNode>::empty());
    assert(r@.tokens =~= seq![tokens@[0]@]);
    r
}

/// Builds the INSERT-FILE pattern.
fn insert_file_pattern() -> (r: ZilNode)
    ensures
        r@ == insert_pattern(),
{
    let mut children: Vec<ZilNode> = Vec::new();
    children.push(word_node("INSERT-FILE"));
    let text = ZilNode { kind: ZilNodeType::Text, children: Vec::new(), tokens: Vec::new() };
    assert(text@.children =~= Seq::<SNode>::empty());
    assert(text@.tokens =~= Seq::<TokV>::empty());
    children.push(text);
    children.push(word_node("T"));
    let r = ZilNode { kind: ZilNodeType::Routine, children, tokens: Vec::new() };
    assert(r@.children =~= insert_pattern().children);
    assert(r@.tokens =~= Seq::<TokV>::empty());
    r
}

/// The names of the files that `<INSERT-FILE "name" T>` forms in the tree ask
/// to combine with it, in the order they appear.
pub fn combine_files(root: &ZilNode) -> (r: Vec<Vec<u8>>)
    ensures
        names(r@) == found_files(root@),
{
    let fake = insert_file_pattern();
    let mut out: Vec<Vec<u8>> = Vec::new();
    combine_recursive(root, &fake, &mut out);
    assert(names(out@) =~= names(Seq::<Vec<u8>>::empty()) + found_files(root@));
    out
}

fn combine_recursive(n: &ZilNode, fake: &ZilNode, out: &mut Vec<Vec<u8>>)
    requires
        fake@ == insert_pattern(),
    ensures
        names(final(out)@) == names(old(out)@) + found_files(n@),
    decreases n, n.children@.len() + 1,
{
    if tree_compare(n, fake) {
        let v = if n.children.len() >= 2 && n.children[1].tokens.len() >= 1 {
            n.children[1].tokens[0].value.clone()
        } else {
            Vec::new()
        };
        proof {
            if n.children@.len() >= 2 {
                assert(n@.children[1] == n.children@[1]@);
            }
        }
        out.push(v);
        assert(names(out@) =~= names(old(out)@) + seq![file_of(n@)]);
    } else {
        let mut i: usize = 0;
        while i < n.children.len()
            invariant
                i <= n.children@.len(),
                fake@ == insert_pattern(),
                names(old(out)@) + found_files(n@) == names(out@) + files_from(n@, i as int),
                !tree_matches(n@, insert_pattern()),
            decreases n.children@.len() - i,
        {
            let ghost before = names(out@);
            combine_recursive(&n.children[i], fake, out);
            assert(n@.children[i as int] == n.children@[i as int]@);
            assert(names(out@) + files_from(n@, i + 1) =~= before + (found_files(n@.children[i as int]) + files_from(n@, i + 1)));
            i += 1;
        }
        assert(names(out@) + Seq::<Seq<u8>>::empty() =~= names(out@));
    }
}


/// The token values of a node, joined.
pub open spec fn joined(ts: Seq<TokV>) -> Seq<u8>
    decreases ts.len(),
{
    if ts.len() == 0 { Seq::empty() } else { joined(ts.drop_last()) + ts.last().value }
}

/// The index of the first Word child of `n` at or after `i`.
pub open spec fn first_word(n: SNode, i: int) -> Option<int>
    decreases n.children.len() - i,
{
    if i < 0 || i >= n.children.len() {
        None
    } else if n.children[i].kind == ZilNodeType::Word {
        Some(i)
    } else {
        first_word(n, i + 1)
    }
}

/// The name a Routine is called by: the joined tokens of its first Word child.
pub open spec fn head_name(n: SNode) -> Seq<Seq<u8>> {
    if n.kind != ZilNodeType::Routine {
        Seq::empty()
    } else {
        match first_word(n, 0) {
            Some(i) => seq![joined(n.children[i].tokens)],
            None => Seq::empty(),
        }
    }
}

/// The names of all Routines in `n`, in pre-order.
pub open spec fn routine_names(n: SNode) -> Seq<Seq<u8>>
    decreases n, n.children.len() + 1,
{
    head_name(n) + names_from(n, 0)
}

pub open spec fn names_from(n: SNode, i: int) -> Seq<Seq<u8>>
    decreases n, n.children.len() - i,
{
    if i < 0 || i >= n.children.len() {
        Seq::empty()
    } else {
        routine_names(n.children[i]) + names_from(n, i + 1)
    }
}

/// The first entry of a tally at or after `i` whose name is `k`.
pub open spec fn find_entry(t: Seq<(Seq<u8>, u64)>, k: Seq<u8>, i: int) -> Option<int>
    decreases t.len() - i,
{
    if i < 0 || i >= t.len() {
        None
    } else if t[i].0 == k {
        Some(i)
    } else {
        find_entry(t, k, i + 1)
    }
}

/// One more occurrence of `k`: its count goes up (saturating), or it is added
/// with a count of one.
pub open spec fn bump(t: Seq<(Seq<u8>, u64)>, k: Seq<u8>) -> Seq<(Seq<u8>, u64)> {
    match find_entry(t, k, 0) {
        Some(i) => t.update(i, (k, if t[i].1 == u64::MAX { u64::MAX } else { (t[i].1 + 1) as u64 })),
        None => t.push((k, 1u64)),
    }
}

/// Occurrence counts of names, in order of first occurrence.
pub open spec fn tally(t: Seq<(Seq<u8>, u64)>, names: Seq<Seq<u8>>) -> Seq<(Seq<u8>, u64)>
    decreases names.len(),
{
    if names.len() == 0 { t } else { bump(tally(t, names.drop_last()), names.last()) }
}

pub open spec fn tally_view(v: Seq<(Vec<u8>, u64)>) -> Seq<(Seq<u8>, u64)> {
    v.map_values(|p: (Vec<u8>, u64)| (p.0@, p.1))
}

proof fn lemma_tally_append(t: Seq<(Seq<u8>, u64)>, a: Seq<Seq<u8>>, b: Seq<Seq<u8>>)
    ensures
        tally(tally(t, a), b) == tally(t, a + b),
    decreases b.len(),
{
    if b.len() == 0 {
        assert(a + b =~= a);
    } else {
        lemma_tally_append(t, a, b.drop_last());
        assert((a + b).drop_last() =~= a + b.drop_last());
        assert((a + b).last() == b.last());
    }
}

/// Counts one more occurrence of `key`.
fn bump_exec(out: &mut Vec<(Vec<u8>, u64)>, key: Vec<u8>)
    ensures
        tally_view(final(out)@) == bump(tally_view(old(out)@), key@),
{
    let ghost t = tally_view(out@);
    let mut i: usize = 0;
    while i < out.len()
        invariant
            i <= out@.len(),
            out@ == old(out)@,
            t == tally_view(out@),
            find_entry(t, key@, 0) == find_entry(t, key@, i as int),
        decreases out@.len() - i,
    {
        if bytes_eq(&out[i].0, &key) {
            let c = out[i].1;
            let n = if c == u64::MAX { c } else { c + 1 };
            let old_name = out[i].0.clone();
            out.set(i, (old_name, n));
            assert(tally_view(out@) =~= t.update(i as int, (key@, n)));
            return;
        }
        i += 1;
    }
    out.push((key, 1u64));
    assert(tally_view(out@) =~= t.push((key@, 1u64)));
}

/// How often each Routine name occurs in the tree, in order of first
/// occurrence; a Routine's name is the first Word among its children.
pub fn find_functions(root: &ZilNode) -> (r: Vec<(Vec<u8>, u64)>)
    ensures
        tally_view(r@) == tally(Seq::empty(), routine_names(root@)),
{
    let mut out: Vec<(Vec<u8>, u64)> = Vec::new();
    assert(tally_view(out@) =~= Seq::<(Seq<u8>, u64)>::empty());
    find_functions_recursively(root, &mut out);
    out
}

fn find_functions_recursively(n: &ZilNode, out: &mut Vec<(Vec<u8>, u64)>)
    ensures
        tally_view(final(out)@) == tally(tally_view(old(out)@), routine_names(n@)),
    decreases n, n.children@.len() + 1,
{
    let ghost start = tally_view(out@);
    if n.kind == ZilNodeType::Routine {
        let mut i: usize = 0;
        while i < n.children.len()
            invariant_except_break
                out@ == old(out)@,
            invariant
                i <= n.children@.len(),
                start == tally_view(old(out)@),
                n@.kind == ZilNodeType::Routine,
                first_word(n@, 0) == first_word(n@, i as int),
            ensures
                tally_view(out@) == tally(start, head_name(n@)),
            decreases n.children@.len() - i,
        {
            assert(n@.children[i as int] == n.children@[i as int]@);
            if n.children[i].kind == ZilNodeType::Word {
                let c = &n.children[i];
                let mut key: Vec<u8> = Vec::new();
                let mut j: usize = 0;
                while j < c.tokens.len()
                    invariant
                        j <= c.tokens@.len(),
                        i < n@.children.len(),
                        c@ == n@.children[i as int],
                        key@ == joined(c@.tokens.subrange(0, j as int)),
                    decreases c.tokens@.len() - j,
                {
                    crate::diagnostic::push_bytes(&mut key, c.tokens[j].value.as_slice());
                    assert(c@.tokens.subrange(0, j + 1).drop_last() =~= c@.tokens.subrange(0, j as int));
                    assert(c@.tokens[j as int] == c.tokens@[j as int]@);
                    j += 1;
                }
                assert(c@.tokens.subrange(0, j as int) =~= c@.tokens);
                assert(key@ == joined(n@.children[i as int].tokens));
                assert(tally_view(out@) == start);
                let ghost kv = key@;
                bump_exec(out, key);
                assert(tally(start, Seq::<Seq<u8>>::empty()) == start);
                assert(tally_view(out@) == bump(start, kv));
                assert(head_name(n@) =~= seq![joined(n@.children[i as int].tokens)]);
                assert(tally(start, head_name(n@)) == bump(tally(start, Seq::empty()), joined(n@.children[i as int].tokens))) by {
                    assert(head_name(n@).drop_last() =~= Seq::<Seq<u8>>::empty());
                }
                break;
            }
            assert(n@.children[i as int].kind == n.children@[i as int].kind);
            i += 1;
        }
        proof {
            if first_word(n@, 0) is None {
                assert(head_name(n@) =~= Seq::<Seq<u8>>::empty());
            }
        }
    } else {
        assert(head_name(n@) =~= Seq::<Seq<u8>>::empty());
    }
    assert(tally_view(out@) == tally(start, head_name(n@)));
    proof {
        lemma_tally_append(start, head_name(n@), names_from(n@, 0));
    }
    let mut k: usize = 0;
    while k < n.children.len()
        invariant
            k <= n.children@.len(),
            tally(start, routine_names(n@)) == tally(tally_view(out@), names_from(n@, k as int)),
        decreases n.children@.len() - k,
    {
        let ghost mid = tally_view(out@);
        find_functions_recursively(&n.children[k], out);
        proof {
            assert(n@.children[k as int] == n.children@[k as int]@);
            lemma_tally_append(mid, routine_names(n@.children[k as int]), names_from(n@, k + 1));
        }
        k += 1;
    }
}

} // verus!
