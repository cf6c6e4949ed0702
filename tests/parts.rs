use zil2js::diagnostic::{ErrKind, TVErr};
use zil2js::file_table::FileTable;
use zil2js::inter::{clone_and_lower, InterKind, InterNode};
use zil2js::lexer::TokenGenerator;
use zil2js::object::OBJECT;
use zil2js::tell::{handle_NOT, TELL};
use zil2js::token::TokenKind;
use zil2js::traversal::{combine_files, find_functions, tree_compare};
use zil2js::tree::{build_tree, ZilNode, ZilNodeType};
use zil2js::writer::CustomBufWriter;

fn tree_of(src: &str) -> ZilNode {
    let mut gen = TokenGenerator::new(3, src.as_bytes().to_vec());
    let mut root = ZilNode::new();
    build_tree(&mut gen, &mut root).unwrap();
    root
}

fn lowered(src: &str) -> InterNode {
    clone_and_lower(&tree_of(src)).unwrap()
}

fn text(w: &CustomBufWriter) -> String {
    String::from_utf8(w.bytes().clone()).unwrap()
}

#[test]
fn tokens_carry_locations_in_order() {
    let mut gen = TokenGenerator::new(7, b"<TELL ; note\n  \"a b\" X>".to_vec());
    let mut seen = Vec::new();
    loop {
        let t = gen.next().unwrap();
        if t.kind == TokenKind::Eof {
            break;
        }
        seen.push((t.kind, String::from_utf8(t.value.clone()).unwrap(), t.loc.file, t.loc.line, t.loc.column));
    }
    assert_eq!(
        seen,
        vec![
            (TokenKind::LeftAngle, "".to_string(), 7, 1, 1),
            (TokenKind::Word, "TELL".to_string(), 7, 1, 2),
            (TokenKind::Text, "a b".to_string(), 7, 2, 3),
            (TokenKind::Word, "X".to_string(), 7, 2, 9),
            (TokenKind::RightAngle, "".to_string(), 7, 2, 10),
        ]
    );
    for k in 1..seen.len() {
        assert!((seen[k - 1].3, seen[k - 1].4) <= (seen[k].3, seen[k].4));
    }
    assert_eq!(gen.next().unwrap().kind, TokenKind::Eof);
    assert_eq!(gen.next().unwrap().kind, TokenKind::Eof);
}

#[test]
fn text_escape_keeps_next_byte() {
    let mut gen = TokenGenerator::new(0, b"\"a\\\"b\\\\\"".to_vec());
    let t = gen.next().unwrap();
    assert_eq!(t.kind, TokenKind::Text);
    assert_eq!(t.value, b"a\"b\\".to_vec());
}

#[test]
fn tree_has_one_root_and_word_heads() {
    let root = tree_of("<OBJECT A (SIZE 1)> <TELL <NOT X>>");
    assert_eq!(root.kind, ZilNodeType::Root);
    fn walk(n: &ZilNode, top: bool) {
        if !top {
            assert_ne!(n.kind, ZilNodeType::Root);
        }
        if n.kind == ZilNodeType::Routine || n.kind == ZilNodeType::Grouping {
            assert_eq!(n.children[0].kind, ZilNodeType::Word);
        }
        for c in &n.children {
            walk(c, false);
        }
    }
    walk(&root, true);
    assert_eq!(root.children.len(), 2);
}

#[test]
fn lowering_keeps_counts_and_values() {
    let src = "<OBJECT LAMP (DESC \"a lamp\") (SIZE 5)>";
    let t = tree_of(src);
    let l = clone_and_lower(&t).unwrap();
    fn same(s: &ZilNode, i: &InterNode) {
        assert_eq!(s.children.len(), i.children.len());
        if s.kind == ZilNodeType::Word || s.kind == ZilNodeType::Text {
            assert_eq!(s.tokens[0].value, i.value);
        }
        for k in 0..s.children.len() {
            same(&s.children[k], &i.children[k]);
        }
    }
    same(&t, &l);
    assert_eq!(l.children[0].kind, InterKind::Routine);
    assert_eq!(l.children[0].children[2].children[1].value, b"a lamp".to_vec());
}

#[test]
fn lowering_rejects_headless_form() {
    let t = tree_of("<(X)>");
    assert_eq!(clone_and_lower(&t).unwrap_err().kind(), ErrKind::InvalidFormShape);
}

#[test]
fn not_form_at_indent() {
    let l = lowered("<NOT FOO>");
    let mut w = CustomBufWriter::new();
    handle_NOT(&l.children[0], 0, &mut w).unwrap();
    assert_eq!(text(&w), "!FOO");
    let mut w2 = CustomBufWriter::new();
    handle_NOT(&l.children[0], 2, &mut w2).unwrap();
    assert_eq!(text(&w2), "    !FOO");
}

#[test]
fn tell_at_indent() {
    let l = lowered("<TELL \"hi \" N>");
    let mut w = CustomBufWriter::new();
    TELL::print(&l.children[0], 1, &mut w).unwrap();
    assert_eq!(text(&w), "  print(\"hi \" + N)");
    assert!(TELL::validate(&l.children[0]).is_ok());
}

#[test]
fn object_at_indent() {
    let l = lowered("<OBJECT ROCK (FLAGS TAKEBIT CLIMBBIT)>");
    let mut w = CustomBufWriter::new();
    OBJECT::print(&l.children[0], 1, &mut w).unwrap();
    assert_eq!(text(&w), "  let ROCK = {\n    FLAGS: { TAKEBIT: true, CLIMBBIT: true },\n  };\n\n");
}

#[test]
fn sub_grouping_validation() {
    let l = lowered("<OBJECT A (SIZE 1) (X) (5 6)>");
    let o = &l.children[0];
    assert!(OBJECT::validate_sub_grouping(&o.children[2]).is_ok());
    assert_eq!(OBJECT::validate_sub_grouping(&o.children[3]).unwrap_err().kind(), ErrKind::InvalidFormShape);
    assert_eq!(OBJECT::validate_sub_grouping(&o.children[1]).unwrap_err().kind(), ErrKind::InvalidFormShape);
    let mut w = CustomBufWriter::new();
    OBJECT::return_int(&o.children[2], 0, &mut w).unwrap();
    assert_eq!(text(&w), "SIZE: () => 1,\n");
    let mut w2 = CustomBufWriter::new();
    OBJECT::mut_int(&o.children[2], 2, &mut w2).unwrap();
    assert_eq!(text(&w2), "    SIZE: 1,\n");
}

#[test]
fn object_sub_handlers_directly() {
    let l = lowered("<OBJECT A (DESC WORD) (ACTION F) (ADJECTIVE BIG \"red\") (VTYPE V)>");
    let o = &l.children[0];
    let mut w = CustomBufWriter::new();
    OBJECT::return_string(&o.children[2], 0, &mut w).unwrap();
    OBJECT::return_fn(&o.children[3], 0, &mut w).unwrap();
    OBJECT::return_string_array(&o.children[4], 0, &mut w).unwrap();
    OBJECT::mut_bools(&o.children[5], 0, &mut w).unwrap();
    assert_eq!(
        text(&w),
        "DESC: () => \"WORD\",\nACTION: () => F,\nADJECTIVE: () => [\"BIG\", \"red\"],\nVTYPE: { V: true },\n"
    );
}

#[test]
fn tree_compare_matches_prefix_patterns() {
    let a = tree_of("<INSERT-FILE \"rooms\" T>");
    let b = tree_of("<INSERT-FILE \"other\" T EXTRA>");
    let c = tree_of("<INSERT-FILE \"rooms\" F>");
    assert!(tree_compare(&a, &a));
    assert!(tree_compare(&b.children[0], &ZilNode::new()) == false);
    assert!(!tree_compare(&a, &b));
    assert!(!tree_compare(&c, &a));
    let fake = tree_of("<INSERT-FILE>");
    assert!(tree_compare(&a.children[0], &fake.children[0]));
    assert!(tree_compare(&b.children[0], &fake.children[0]));
}

#[test]
fn combine_files_finds_insert_file_forms() {
    let t = tree_of("<INSERT-FILE \"rooms\" T> <OBJECT A (SIZE 1)> <X <INSERT-FILE \"items\" T>> <INSERT-FILE \"no\" F>");
    let found = combine_files(&t);
    assert_eq!(found, vec![b"rooms".to_vec(), b"items".to_vec()]);
    assert!(combine_files(&tree_of("")).is_empty());
}

#[test]
fn file_table_keys() {
    let mut t = FileTable::new();
    assert_eq!(t.insert("a.zil".to_string()), 0);
    assert_eq!(t.insert("b.zil".to_string()), 1);
    assert_eq!(t.insert("a.zil".to_string()), 0);
    assert_eq!(t.len(), 2);
    assert_eq!(t.get(1).unwrap(), "b.zil");
    assert!(t.get(2).is_none());
}

#[test]
fn diagnostic_chain_renders_innermost_first() {
    let e = TVErr::origin(ErrKind::NotAnInteger, "not an integer");
    let e = TVErr::wrap(e, "in SIZE");
    let e = TVErr::wrap(e, "in OBJECT");
    assert_eq!(e.kind(), ErrKind::NotAnInteger);
    assert_eq!(e.depth(), 3);
    assert_eq!(String::from_utf8(e.render()).unwrap(), "NotAnInteger: not an integer\nin SIZE\nin OBJECT");
    assert_eq!(e.messages()[0], b"NotAnInteger: not an integer".to_vec());
}

#[test]
fn writer_appends_bytes() {
    let mut w = CustomBufWriter::new();
    w.w("ab");
    w.w_bytes(b"c");
    w.w_spacer(2);
    assert_eq!(w.into_bytes(), b"abc    ".to_vec());
}

#[test]
fn find_functions_counts_routine_names() {
    let t = tree_of("<ROUTINE GO () <TELL X> <TELL Y>> <(A) TELL> <OBJECT B>");
    let found = find_functions(&t);
    assert_eq!(
        found,
        vec![(b"ROUTINE".to_vec(), 1), (b"TELL".to_vec(), 3), (b"OBJECT".to_vec(), 1)]
    );
    assert!(find_functions(&tree_of("(A B)")).is_empty());
}
