//! Document symbols: the functions, classes, methods and other named items
//! of a syntax tree, with their ranges.
//!
//! The tree is the library's own `SyntaxNode`, holding what the extraction
//! reads of each node of a parse: its kind, its byte range and its start and
//! end positions.

use vstd::prelude::*;
use vstd::string::{StrSliceExecFns, StringExecFns, StringSliceAdditionalSpecFns};
use vstd::utf8::{decode_utf8, encode_utf8, is_char_boundary};

verus! {

/// A position in a document: zero-based line and column.
#[derive(Clone, Copy, Debug, PartialEq, Eq, Structural)]
pub struct Position {
    pub line: u32,
    pub character: u32,
}

/// A span of a document.
#[derive(Clone, Copy, Debug, PartialEq, Eq, Structural)]
pub struct Range {
    pub start: Position,
    pub end: Position,
}

/// A named item of a document.
pub struct DocumentSymbol {
    pub name: String,
    pub kind: String,
    pub range: Range,
    pub selection_range: Range,
}

/// A document symbol, as a mathematical value.
pub struct SymbolView {
    pub name: Seq<char>,
    pub kind: Seq<char>,
    pub range: Range,
    pub selection_range: Range,
}

impl View for DocumentSymbol {
    type V = SymbolView;

    open spec fn view(&self) -> SymbolView {
        SymbolView {
            name: self.name@,
            kind: self.kind@,
            range: self.range,
            selection_range: self.selection_range,
        }
    }
}

/// The mathematical values of a sequence of symbols.
pub open spec fn symbol_views(v: Seq<DocumentSymbol>) -> Seq<SymbolView> {
    v.map_values(|s: DocumentSymbol| s@)
}

/// A node of a syntax tree.
pub struct SyntaxNode {
    /// The grammar's name for the node.
    pub kind: String,
    /// Where the node's text starts in the source, in bytes.
    pub start_byte: usize,
    /// Where the node's text ends in the source, in bytes.
    pub end_byte: usize,
    pub start: Position,
    pub end: Position,
    pub children: Vec<SyntaxNode>,
}

/// The symbol kind that a node of this kind stands for, if any.
pub open spec fn symbol_kind_of(k: Seq<char>) -> Option<Seq<char>> {
    if k == "function_declaration"@ || k == "function_definition"@ || k == "function"@ {
        Some("Function"@)
    } else if k == "class_declaration"@ || k == "class_definition"@ || k == "class"@ {
        Some("Class"@)
    } else if k == "interface_declaration"@ || k == "interface"@ {
        Some("Interface"@)
    } else if k == "variable_declaration"@ || k == "variable_declarator"@ || k
        == "let_declaration"@ || k == "const_declaration"@ {
        Some("Variable"@)
    } else if k == "method_definition"@ || k == "method_declaration"@ {
        Some("Method"@)
    } else if k == "enum_declaration"@ || k == "enum"@ {
        Some("Enum"@)
    } else if k == "struct_declaration"@ || k == "struct_item"@ {
        Some("Struct"@)
    } else if k == "impl_item"@ {
        Some("Namespace"@)
    } else if k == "type_alias_declaration"@ || k == "type_item"@ {
        Some("TypeParameter"@)
    } else {
        None
    }
}

/// Whether a node of this kind names its parent.
pub open spec fn is_identifier_kind(k: Seq<char>) -> bool {
    k == "identifier"@ || k == "type_identifier"@
}

/// The text of `src[start..end]`, when both ends fall on character
/// boundaries within the source.
pub open spec fn text_at(src: Seq<u8>, start: int, end: int) -> Option<Seq<char>> {
    if 0 <= start <= end <= src.len() && is_char_boundary(src, start) && is_char_boundary(
        src,
        end,
    ) {
        Some(decode_utf8(src.subrange(start, end)))
    } else {
        None
    }
}

/// The index of the first child at or after `i` whose kind is an identifier.
pub open spec fn identifier_child_from(children: Seq<SyntaxNode>, i: int) -> Option<int>
    decreases children.len() - i,
{
    if i < 0 || i >= children.len() {
        None
    } else if is_identifier_kind(children[i].kind@) {
        Some(i)
    } else {
        identifier_child_from(children, i + 1)
    }
}

/// White space as `char::is_whitespace` has it: the Unicode `White_Space`
/// characters.
pub open spec fn is_white(c: char) -> bool {
    let u = c as u32;
    (0x9 <= u && u <= 0xd) || u == 0x20 || u == 0x85 || u == 0xa0 || u == 0x1680 || (0x2000 <= u
        && u <= 0x200a) || u == 0x2028 || u == 0x2029 || u == 0x202f || u == 0x205f || u == 0x3000
}

/// The first index at or after `i` whose character is not white space.
pub open spec fn skip_white(t: Seq<char>, i: int) -> int
    decreases t.len() - i,
{
    if i < 0 || i >= t.len() {
        t.len() as int
    } else if !is_white(t[i]) {
        i
    } else {
        skip_white(t, i + 1)
    }
}

/// The first index at or after `i` whose character is white space.
pub open spec fn skip_word(t: Seq<char>, i: int) -> int
    decreases t.len() - i,
{
    if i < 0 || i >= t.len() {
        t.len() as int
    } else if is_white(t[i]) {
        i
    } else {
        skip_word(t, i + 1)
    }
}

/// The first index at or after `i` that holds `(`.
pub open spec fn paren_from(t: Seq<char>, i: int) -> int
    decreases t.len() - i,
{
    if i < 0 || i >= t.len() {
        t.len() as int
    } else if t[i] == '(' {
        i
    } else {
        paren_from(t, i + 1)
    }
}

/// The second white-space separated word of `t` (empty when there is
/// none), cut before its first `(`.
pub open spec fn fallback_name(t: Seq<char>) -> Seq<char> {
    let a = skip_white(t, 0);
    let b = skip_word(t, a);
    let c = skip_white(t, b);
    let d = skip_word(t, c);
    let w = t.subrange(c, d);
    w.take(paren_from(w, 0))
}

/// The name of a node: the text of its first identifier child, or else the
/// second word of its own text, without what follows a `(`.
pub open spec fn symbol_name(n: SyntaxNode, src: Seq<u8>) -> Seq<char> {
    match identifier_child_from(n.children@, 0) {
        Some(i) => {
            let c = n.children@[i];
            match text_at(src, c.start_byte as int, c.end_byte as int) {
                Some(t) => t,
                None => Seq::empty(),
            }
        },
        None => match text_at(src, n.start_byte as int, n.end_byte as int) {
            Some(t) => fallback_name(t),
            None => Seq::empty(),
        },
    }
}

/// The symbol for a node of symbol kind `kind` and name `name`: its range is
/// the node's, and its selection starts there and runs for the name's length
/// in bytes (saturating at the largest column).
pub open spec fn make_symbol(n: SyntaxNode, name: Seq<char>, kind: Seq<char>) -> SymbolView {
    let len = encode_utf8(name).len() as usize;
    let end_col = if n.start.character + len > u32::MAX {
        u32::MAX
    } else {
        (n.start.character + len) as u32
    };
    SymbolView {
        name,
        kind,
        range: Range { start: n.start, end: n.end },
        selection_range: Range {
            start: n.start,
            end: Position { line: n.start.line, character: end_col },
        },
    }
}

/// The symbols of a tree, in pre-order: a node of a symbol kind with a
/// non-empty name gives a symbol, then come those of its children.
pub open spec fn symbols_of(n: SyntaxNode, src: Seq<u8>) -> Seq<SymbolView>
    decreases n, n.children@.len() + 1,
{
    let own = match symbol_kind_of(n.kind@) {
        Some(k) => {
            let name = symbol_name(n, src);
            if name.len() > 0 {
                seq![make_symbol(n, name, k)]
            } else {
                Seq::empty()
            }
        },
        None => Seq::empty(),
    };
    own + children_symbols(n, 0, src)
}

/// The symbols of the children of `n` from the `i`-th on.
pub open spec fn children_symbols(n: SyntaxNode, i: int, src: Seq<u8>) -> Seq<SymbolView>
    decreases n, n.children@.len() - i,
{
    if i < 0 || i >= n.children@.len() {
        Seq::empty()
    } else {
        symbols_of(n.children@[i], src) + children_symbols(n, i + 1, src)
    }
}

/// Whether `c` is white space, as `char::is_whitespace` decides it.
pub fn is_whitespace_char(c: char) -> (r: bool)
    ensures
        r == is_white(c),
{
    let u = c as u32;
    (0x9 <= u && u <= 0xd) || u == 0x20 || u == 0x85 || u == 0xa0 || u == 0x1680 || (0x2000 <= u
        && u <= 0x200a) || u == 0x2028 || u == 0x2029 || u == 0x202f || u == 0x205f || u == 0x3000
}

fn text_is(k: &String, lit: &str) -> (r: bool)
    ensures
        r == (k@ == lit@),
{
    let l = String::from_str(lit);
    *k == l
}

/// The symbol kind that a node of kind `k` stands for, if any.
pub fn symbol_kind_for(k: &String) -> (r: Option<String>)
    ensures
        match r {
            Some(s) => symbol_kind_of(k@) == Some(s@),
            None => symbol_kind_of(k@) is None,
        },
{
    if text_is(k, "function_declaration") || text_is(k, "function_definition") || text_is(k, "function") {
        Some(String::from_str("Function"))
    } else if text_is(k, "class_declaration") || text_is(k, "class_definition") || text_is(k, "class") {
        Some(String::from_str("Class"))
    } else if text_is(k, "interface_declaration") || text_is(k, "interface") {
        Some(String::from_str("Interface"))
    } else if text_is(k, "variable_declaration") || text_is(k, "variable_declarator") || text_is(
        k,
        "let_declaration",
    ) || text_is(k, "const_declaration") {
        Some(String::from_str("Variable"))
    } else if text_is(k, "method_definition") || text_is(k, "method_declaration") {
        Some(String::from_str("Method"))
    } else if text_is(k, "enum_declaration") || text_is(k, "enum") {
        Some(String::from_str("Enum"))
    } else if text_is(k, "struct_declaration") || text_is(k, "struct_item") {
        Some(String::from_str("Struct"))
    } else if text_is(k, "impl_item") {
        Some(String::from_str("Namespace"))
    } else if text_is(k, "type_alias_declaration") || text_is(k, "type_item") {
        Some(String::from_str("TypeParameter"))
    } else {
        None
    }
}

/// Relies on `str::get` with a byte range: the text between two character
/// boundaries within the string, and `None` for any other range.
#[verifier::external_body]
fn byte_slice(s: &str, start: usize, end: usize) -> (r: Option<&str>)
    ensures
        r is Some <==> (start <= end <= s.spec_bytes().len() && is_char_boundary(
            s.spec_bytes(),
            start as int,
        ) && is_char_boundary(s.spec_bytes(), end as int)),
        r matches Some(t) ==> t.spec_bytes() == s.spec_bytes().subrange(start as int, end as int),
{
    s.get(start..end)
}

/// The text of `source[start..end]`, when both ends are character
/// boundaries within it.
pub fn text_between(source: &str, start: usize, end: usize) -> (r: Option<String>)
    ensures
        match r {
            Some(t) => text_at(source.spec_bytes(), start as int, end as int) == Some(t@),
            None => text_at(source.spec_bytes(), start as int, end as int) is None,
        },
{
    match byte_slice(source, start, end) {
        Some(t) => {
            proof {
                vstd::utf8::encode_utf8_decode_utf8(t@);
            }
            Some(String::from_str(t))
        },
        None => None,
    }
}

fn skip_white_from(t: &str, len: usize, i: usize) -> (r: usize)
    requires
        len == t@.len(),
        i <= len,
    ensures
        r as int == skip_white(t@, i as int),
        i <= r <= len,
{
    let mut j: usize = i;
    while j < len && is_whitespace_char(t.get_char(j))
        invariant
            len == t@.len(),
            i <= j <= len,
            skip_white(t@, j as int) == skip_white(t@, i as int),
        decreases len - j,
    {
        j = j + 1;
    }
    j
}

fn skip_word_from(t: &str, len: usize, i: usize) -> (r: usize)
    requires
        len == t@.len(),
        i <= len,
    ensures
        r as int == skip_word(t@, i as int),
        i <= r <= len,
{
    let mut j: usize = i;
    while j < len && !is_whitespace_char(t.get_char(j))
        invariant
            len == t@.len(),
            i <= j <= len,
            skip_word(t@, j as int) == skip_word(t@, i as int),
        decreases len - j,
    {
        j = j + 1;
    }
    j
}

/// The second white-space separated word of `t`, cut before its first `(`.
pub fn second_word(t: &str) -> (r: String)
    ensures
        r@ == fallback_name(t@),
{
    let len = t.unicode_len();
    let a = skip_white_from(t, len, 0);
    let b = skip_word_from(t, len, a);
    let c = skip_white_from(t, len, b);
    let d = skip_word_from(t, len, c);
    let w = t.substring_char(c, d);
    let wl = w.unicode_len();
    let mut p: usize = 0;
    while p < wl && w.get_char(p) != '('
        invariant
            wl == w@.len(),
            0 <= p <= wl,
            paren_from(w@, p as int) == paren_from(w@, 0),
        decreases wl - p,
    {
        p = p + 1;
    }
    String::from_str(w.substring_char(0, p))
}

fn identifier_child(children: &Vec<SyntaxNode>) -> (r: Option<usize>)
    ensures
        match r {
            Some(i) => identifier_child_from(children@, 0) == Some(i as int) && i < children@.len(),
            None => identifier_child_from(children@, 0) is None,
        },
{
    let mut i: usize = 0;
    while i < children.len()
        invariant
            0 <= i <= children@.len(),
            identifier_child_from(children@, i as int) == identifier_child_from(children@, 0),
        decreases children@.len() - i,
    {
        if text_is(&children[i].kind, "identifier") || text_is(&children[i].kind, "type_identifier") {
            return Some(i);
        }
        i = i + 1;
    }
    None
}

/// The name of a node: the text of its first identifier child, or else the
/// second word of its own text, cut before a `(`; empty when the text
/// cannot be had.
pub fn node_name(n: &SyntaxNode, source: &str) -> (r: String)
    ensures
        r@ == symbol_name(*n, source.spec_bytes()),
{
    match identifier_child(&n.children) {
        Some(i) => {
            let c = &n.children[i];
            match text_between(source, c.start_byte, c.end_byte) {
                Some(t) => t,
                None => String::new(),
            }
        },
        None => match text_between(source, n.start_byte, n.end_byte) {
            Some(t) => second_word(t.as_str()),
            None => String::new(),
        },
    }
}

/// Appends the symbols of the tree rooted at `n` to `out`, in pre-order.
pub fn collect_symbols(n: &SyntaxNode, source: &str, out: &mut Vec<DocumentSymbol>)
    ensures
        symbol_views(final(out)@) == symbol_views(old(out)@) + symbols_of(*n, source.spec_bytes()),
    decreases n,
{
    let ghost src = source.spec_bytes();
    let ghost start = symbol_views(out@);
    match symbol_kind_for(&n.kind) {
        Some(kind) => {
            let name = node_name(n, source);
            if !name.as_str().is_empty() {
                let len = name.as_str().len();
                let end_col = if len > u32::MAX as usize {
                    u32::MAX
                } else {
                    n.start.character.saturating_add(len as u32)
                };
                let sym = DocumentSymbol {
                    name,
                    kind,
                    range: Range { start: n.start, end: n.end },
                    selection_range: Range {
                        start: n.start,
                        end: Position { line: n.start.line, character: end_col },
                    },
                };
                let ghost sv = sym@;
                assert(sv.name == symbol_name(*n, src));
                assert(sv.kind == symbol_kind_of(n.kind@)->Some_0);
                assert(sv.range == make_symbol(*n, sv.name, sv.kind).range);
                assert(sv.selection_range == make_symbol(*n, sv.name, sv.kind).selection_range);
                assert(sv == make_symbol(*n, symbol_name(*n, src), symbol_kind_of(n.kind@)->Some_0));
                out.push(sym);
                assert(symbol_views(out@) =~= start.push(sv));
            }
        },
        None => {},
    }
    let ghost own = symbol_views(out@).skip(start.len() as int);
    assert(symbol_views(out@) =~= start + own);
    assert(own + children_symbols(*n, 0, src) == symbols_of(*n, src));
    let mut i: usize = 0;
    while i < n.children.len()
        invariant
            src == source.spec_bytes(),
            0 <= i <= n.children@.len(),
            symbol_views(out@) + children_symbols(*n, i as int, src) == start + symbols_of(*n, src),
        decreases n.children@.len() - i,
    {
        let ghost before = symbol_views(out@);
        collect_symbols(&n.children[i], source, out);
        assert(before + children_symbols(*n, i as int, src) =~= before + symbols_of(
            n.children@[i as int],
            src,
        ) + children_symbols(*n, i + 1, src));
        i = i + 1;
    }
    assert(symbol_views(out@) + children_symbols(*n, i as int, src) =~= symbol_views(out@));
}

/// The symbols of a document, given its syntax tree and its text.
pub fn document_symbols(root: &SyntaxNode, source: &str) -> (r: Vec<DocumentSymbol>)
    ensures
        symbol_views(r@) == symbols_of(*root, source.spec_bytes()),
{
    let mut out: Vec<DocumentSymbol> = Vec::new();
    collect_symbols(root, source, &mut out);
    assert(symbol_views(Seq::<DocumentSymbol>::empty()) =~= Seq::<SymbolView>::empty());
    assert(Seq::<SymbolView>::empty() + symbols_of(*root, source.spec_bytes()) =~= symbols_of(
        *root,
        source.spec_bytes(),
    ));
    out
}

/// The grammars that documents can be parsed with.
#[derive(Clone, Copy, Debug, PartialEq, Eq, Structural)]
pub enum LanguageKind {
    JavaScript,
    TypeScript,
    Tsx,
    Python,
    Rust,
    Go,
}

/// The grammar for a language id, with its usual aliases.
pub open spec fn language_of(id: Seq<char>) -> Option<LanguageKind> {
    if id == "javascript"@ || id == "js"@ {
        Some(LanguageKind::JavaScript)
    } else if id == "typescript"@ || id == "ts"@ {
        Some(LanguageKind::TypeScript)
    } else if id == "tsx"@ || id == "typescriptreact"@ {
        Some(LanguageKind::Tsx)
    } else if id == "python"@ || id == "py"@ {
        Some(LanguageKind::Python)
    } else if id == "rust"@ || id == "rs"@ {
        Some(LanguageKind::Rust)
    } else if id == "go"@ {
        Some(LanguageKind::Go)
    } else {
        None
    }
}

/// The grammar for a language id; an unknown id gives the message
/// `Unsupported language: <id>`.
pub fn get_language(language_id: &String) -> (r: Result<LanguageKind, String>)
    ensures
        match language_of(language_id@) {
            Some(k) => r == Ok::<LanguageKind, String>(k),
            None => r matches Err(e) && e@ == "Unsupported language: "@ + language_id@,
        },
{
    let id = language_id;
    if text_is(id, "javascript") || text_is(id, "js") {
        Ok(LanguageKind::JavaScript)
    } else if text_is(id, "typescript") || text_is(id, "ts") {
        Ok(LanguageKind::TypeScript)
    } else if text_is(id, "tsx") || text_is(id, "typescriptreact") {
        Ok(LanguageKind::Tsx)
    } else if text_is(id, "python") || text_is(id, "py") {
        Ok(LanguageKind::Python)
    } else if text_is(id, "rust") || text_is(id, "rs") {
        Ok(LanguageKind::Rust)
    } else if text_is(id, "go") {
        Ok(LanguageKind::Go)
    } else {
        let mut e = String::from_str("Unsupported language: ");
        e.append(id.as_str());
        Err(e)
    }
}

} // verus!
