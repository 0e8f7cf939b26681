use editor_backend::symbols::{
    document_symbols, get_language, is_whitespace_char, node_name, second_word, symbol_kind_for,
    text_between, LanguageKind, Position, SyntaxNode,
};

fn pos(line: u32, character: u32) -> Position {
    Position { line, character }
}

fn node(kind: &str, start: usize, end: usize, sp: Position, ep: Position, children: Vec<SyntaxNode>) -> SyntaxNode {
    SyntaxNode {
        kind: kind.to_string(),
        start_byte: start,
        end_byte: end,
        start: sp,
        end: ep,
        children,
    }
}

#[test]
fn symbol_kinds_of_node_kinds() {
    let k = |s: &str| symbol_kind_for(&s.to_string());
    assert_eq!(k("function_declaration").as_deref(), Some("Function"));
    assert_eq!(k("class_definition").as_deref(), Some("Class"));
    assert_eq!(k("interface").as_deref(), Some("Interface"));
    assert_eq!(k("let_declaration").as_deref(), Some("Variable"));
    assert_eq!(k("method_definition").as_deref(), Some("Method"));
    assert_eq!(k("enum").as_deref(), Some("Enum"));
    assert_eq!(k("struct_item").as_deref(), Some("Struct"));
    assert_eq!(k("impl_item").as_deref(), Some("Namespace"));
    assert_eq!(k("type_item").as_deref(), Some("TypeParameter"));
    assert_eq!(k("identifier"), None);
    assert_eq!(k("program"), None);
}

#[test]
fn fallback_names_take_the_second_word() {
    assert_eq!(second_word("function foo(a, b) {}"), "foo");
    assert_eq!(second_word("  class\tBar extends Baz"), "Bar");
    assert_eq!(second_word("impl"), "");
    assert_eq!(second_word("fn (x)"), "");
    assert_eq!(second_word("let\u{3000}caf\u{e9} = 1"), "caf\u{e9}");
    assert!(is_whitespace_char('\u{85}'));
    assert!(!is_whitespace_char('x'));
}

#[test]
fn text_between_respects_character_boundaries() {
    let src = "a\u{e9}b";
    assert_eq!(text_between(src, 0, 1).as_deref(), Some("a"));
    assert_eq!(text_between(src, 1, 3).as_deref(), Some("\u{e9}"));
    assert_eq!(text_between(src, 1, 2), None);
    assert_eq!(text_between(src, 3, 9), None);
    assert_eq!(text_between(src, 2, 1), None);
}

#[test]
fn symbols_of_a_small_tree() {
    // fn main() {}\nstruct Point { x: i32 }
    let src = "fn main() {}\nstruct Point { x: i32 }";
    let main_fn = node(
        "function_item_like",
        0,
        12,
        pos(0, 0),
        pos(0, 12),
        vec![],
    );
    let point_name = node("type_identifier", 20, 25, pos(1, 7), pos(1, 12), vec![]);
    let point = node("struct_item", 13, 36, pos(1, 0), pos(1, 23), vec![point_name]);
    let fn_decl = node("function_declaration", 0, 12, pos(0, 0), pos(0, 12), vec![main_fn]);
    let root = node("source_file", 0, 36, pos(0, 0), pos(1, 23), vec![fn_decl, point]);
    let syms = document_symbols(&root, src);
    assert_eq!(syms.len(), 2);
    assert_eq!(syms[0].name, "main");
    assert_eq!(syms[0].kind, "Function");
    assert_eq!(syms[0].range.end, pos(0, 12));
    assert_eq!(syms[0].selection_range.end, pos(0, 4));
    assert_eq!(syms[1].name, "Point");
    assert_eq!(syms[1].kind, "Struct");
    assert_eq!(syms[1].selection_range.start, pos(1, 0));
    assert_eq!(syms[1].selection_range.end, pos(1, 5));
}

#[test]
fn unnamed_symbols_are_skipped_but_children_are_visited() {
    let src = "impl X { fn f() {} }";
    let f_name = node("identifier", 12, 13, pos(0, 12), pos(0, 13), vec![]);
    let f = node("function_declaration", 9, 18, pos(0, 9), pos(0, 18), vec![f_name]);
    let imp = node("impl_item", 0, 1, pos(0, 0), pos(0, 20), vec![f]);
    let syms = document_symbols(&imp, src);
    assert_eq!(syms.len(), 1);
    assert_eq!(syms[0].name, "f");
    assert_eq!(node_name(&imp, src), "");
}

#[test]
fn selection_end_saturates() {
    let src = "class Abc";
    let n = node("class", 0, 9, pos(0, u32::MAX - 1), pos(0, u32::MAX), vec![]);
    let syms = document_symbols(&n, src);
    assert_eq!(syms[0].selection_range.end.character, u32::MAX);
}

#[test]
fn languages_by_id() {
    assert_eq!(get_language(&"js".to_string()), Ok(LanguageKind::JavaScript));
    assert_eq!(get_language(&"typescriptreact".to_string()), Ok(LanguageKind::Tsx));
    assert_eq!(get_language(&"py".to_string()), Ok(LanguageKind::Python));
    assert_eq!(get_language(&"rust".to_string()), Ok(LanguageKind::Rust));
    assert_eq!(get_language(&"go".to_string()), Ok(LanguageKind::Go));
    assert_eq!(get_language(&"ts".to_string()), Ok(LanguageKind::TypeScript));
    assert_eq!(
        get_language(&"cobol".to_string()),
        Err("Unsupported language: cobol".to_string())
    );
}
