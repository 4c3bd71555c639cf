//! Concrete cases for the library's stated behaviour: each law on sample
//! values, every semantic diagnostic, the exact renderings, and the
//! preprocessor's source map.

use rcc::lexical_analyzer::{self, TokenClass};
use rcc::preprocessor::{self, PreprocessError, SourceMap};
use rcc::semantic_analyzer::{self, SemanticError};
use rcc::symbol_table::{Category, SymbolTable};
use rcc::syntatic_analyzer;
use rcc::tac::{self, Opcode};

fn errors_of(src: &str) -> Vec<SemanticError> {
    let lex = lexical_analyzer::tokenize(src, false);
    assert!(lex.errors.is_empty(), "lexical errors: {:?}", lex.errors);
    let (program, _) = syntatic_analyzer::parse(&lex.tokens).expect("should parse");
    semantic_analyzer::analyze(&program)
}

fn messages(src: &str) -> Vec<String> {
    errors_of(src).into_iter().map(|e| e.msg).collect()
}

fn with_main(classes: &str) -> String {
    format!(
        "class Main {{ public static void main(String[] a) {{ System.out.println(0) ; }} }}\n{classes}"
    )
}

// ---------- semantic analysis ----------

#[test]
fn errors_come_sorted_by_line_then_column() {
    let src = with_main(
        "class C {
            public int f() {
                int y ;
                y = true ;
                y = false ;
                return zzz ;
            }
        }
        class C { int k ; }",
    );
    let errs = errors_of(&src);
    assert!(errs.len() >= 4, "got {errs:?}");
    for w in errs.windows(2) {
        assert!((w[0].line, w[0].column) <= (w[1].line, w[1].column), "got {errs:?}");
    }
    // The repeated class is found first but reported last: it is on the
    // last line.
    assert_eq!(errs.last().unwrap().msg, "class 'C' is declared more than once");
}

#[test]
fn exact_messages_for_class_level_rules() {
    let src = with_main(
        "class A extends B { int x ; int x ; public int f() { int r ; r = 0 ; return r ; } public int f() { int r ; r = 0 ; return r ; } }
         class B extends A { Ghost g ; }
         class Main { int z ; }",
    );
    let msgs = messages(&src);
    for expected in [
        "field 'x' is declared more than once",
        "method 'f' is declared more than once",
        "inheritance cycle involving class 'A'",
        "inheritance cycle involving class 'B'",
        "unknown type 'Ghost'",
        "class 'Main' is declared more than once",
    ] {
        assert!(msgs.iter().any(|m| m == expected), "missing {expected:?} in {msgs:?}");
    }
}

#[test]
fn exact_messages_for_expressions() {
    let src = with_main(
        "class C {
            int[] arr ;
            boolean b ;
            public int f(int p) {
                int n ;
                n = b[0] ;
                n = b.length ;
                n = p.g() ;
                n = this.nope() ;
                n = new Nope() ;
                b = !3 ;
                b = 1 < true ;
                arr = new int[false] ;
                n = arr[true] ;
                System.out.println(b) ;
                if (n) { n = 1 ; } else { n = 2 ; }
                while (n) { n = 1 ; }
                q = 1 ;
                n[0] = 1 ;
                arr[0] = true ;
                return b ;
            }
        }",
    );
    let msgs = messages(&src);
    for expected in [
        "cannot index type 'boolean': not an int array",
        "'.length' requires an int array, found 'boolean'",
        "method call requires a class instance, found 'int'",
        "class 'C' has no method 'nope'",
        "cannot instantiate unknown class 'Nope'",
        "'!' operand must be 'boolean', found 'int'",
        "'<' operand must be 'int', found 'boolean'",
        "array size must be 'int', found 'boolean'",
        "array index must be 'int', found 'boolean'",
        "println argument must be 'int', found 'boolean'",
        "if condition must be 'boolean', found 'int'",
        "while condition must be 'boolean', found 'int'",
        "undefined variable 'q'",
        "cannot index 'n' of type 'int': not an int array",
        "array element must be 'int', found 'boolean'",
        "return type mismatch: method returns 'int' but expression has type 'boolean'",
    ] {
        assert!(msgs.iter().any(|m| m == expected), "missing {expected:?} in {msgs:?}");
    }
}

#[test]
fn exact_messages_for_calls_and_assignments() {
    let src = with_main(
        "class A { public int f(int x, boolean y) { int r ; r = x ; return r ; } }
         class B {
            public int g() {
                A a ;
                int n ;
                n = a.f(1) ;
                n = a.f(true, false) ;
                a = 3 ;
                return n ;
            }
         }",
    );
    let msgs = messages(&src);
    for expected in [
        "method 'f' expects 2 argument(s), found 1",
        "argument type 'boolean' is not compatible with parameter type 'int'",
        "cannot assign value of type 'int' to 'a' of type 'A'",
    ] {
        assert!(msgs.iter().any(|m| m == expected), "missing {expected:?} in {msgs:?}");
    }
}

#[test]
fn this_in_main_is_reported() {
    let src = "class Main { public static void main(String[] a) { System.out.println(this.f()) ; } }";
    let msgs = messages(src);
    assert_eq!(msgs, vec!["'this' cannot be used in static main".to_string()]);
}

#[test]
fn override_message_names_the_ancestor() {
    let src = with_main(
        "class A { public int f(int x) { int z ; z = x ; return z ; } }
         class B extends A { public int g() { int z ; z = 0 ; return z ; } }
         class C extends B { public int f(boolean x) { int z ; z = 0 ; return z ; } }",
    );
    let msgs = messages(&src);
    assert!(
        msgs.iter().any(|m| m == "method 'f' overrides 'A::f' with an incompatible signature"),
        "got {msgs:?}"
    );
}

#[test]
fn subclass_value_is_assignable_to_its_superclass() {
    let src = with_main(
        "class A { int v ; }
         class B extends A { public A up() { A a ; a = new B() ; return a ; } }",
    );
    assert!(errors_of(&src).is_empty());
    // ... but not the other way round.
    let src = with_main(
        "class A { int v ; }
         class B extends A { public B down() { B b ; b = new A() ; return b ; } }",
    );
    assert_eq!(messages(&src), vec!["cannot assign value of type 'A' to 'b' of type 'B'".to_string()]);
}

// ---------- symbol table ----------

#[test]
fn lookup_finds_the_last_entry_added() {
    let mut t = SymbolTable::new();
    let a = t.add("global", "x", Category::Field, "int", 1, 1);
    assert_eq!(t.lookup("global", "x"), Some(a));
    let b = t.add("global", "x", Category::Field, "boolean", 2, 1);
    assert_eq!(t.lookup("global", "x"), Some(b));
    assert_eq!(t.lookup("global", "y"), None);
}

#[test]
fn resolve_walks_outward() {
    let mut t = SymbolTable::new();
    let f = t.add("global::C", "v", Category::Field, "int", 1, 1);
    let l = t.add("global::C::m", "w", Category::Local, "int", 2, 1);
    assert_eq!(t.resolve("global::C::m", "v"), Some(f));
    assert_eq!(t.resolve("global::C::m", "w"), Some(l));
    assert_eq!(t.resolve("global::C", "w"), None);
}

#[test]
fn interning_twice_gives_one_entry() {
    let mut t = SymbolTable::new();
    let a = t.intern_const("7", "int");
    let b = t.intern_const("7", "boolean");
    assert_eq!(a, b);
    assert_eq!(t.entries.len(), 1);
    assert_eq!(t.entries[0].ty, "int");
}

#[test]
fn fresh_temporaries_and_labels_are_numbered() {
    let mut t = SymbolTable::new();
    let t0 = t.new_temp("global", "int");
    let t1 = t.new_temp("global", "int");
    let l0 = t.new_label("global");
    assert_eq!(t.name_of(t0), "t0");
    assert_eq!(t.name_of(t1), "t1");
    assert_eq!(t.name_of(l0), "L0");
}

#[test]
fn qualified_names() {
    let mut t = SymbolTable::new();
    let m = t.add("global::Fac", "ComputeFac", Category::Method, "int", 1, 1);
    let c = t.add("global", "Fac", Category::Class, "-", 1, 1);
    let x = t.add("global::A::B", "x", Category::Local, "int", 1, 1);
    assert_eq!(t.qualified_name(m), "Fac.ComputeFac");
    assert_eq!(t.qualified_name(c), "Fac");
    assert_eq!(t.qualified_name(x), "A.B.x");
}

// ---------- three-address code ----------

fn generated(src: &str) -> (Vec<tac::Instr>, SymbolTable, usize) {
    let lex = lexical_analyzer::tokenize(src, false);
    let (program, mut symbols) = syntatic_analyzer::parse(&lex.tokens).expect("should parse");
    let before = symbols.entries.len();
    let code = tac::generate(&program, &mut symbols);
    (code, symbols, before)
}

#[test]
fn generation_only_adds_to_the_table() {
    let src = "class Main { public static void main(String[] a) { System.out.println(1 + 2) ; } }";
    let lex = lexical_analyzer::tokenize(src, false);
    let (program, mut symbols) = syntatic_analyzer::parse(&lex.tokens).expect("should parse");
    let names_before: Vec<String> = symbols.entries.iter().map(|e| e.name.clone()).collect();
    tac::generate(&program, &mut symbols);
    assert!(symbols.entries.len() > names_before.len());
    for (i, n) in names_before.iter().enumerate() {
        assert_eq!(&symbols.entries[i].name, n);
    }
}

#[test]
fn rendering_is_exact() {
    let src = "class Main { public static void main(String[] a) { System.out.println(1 + 2) ; } }";
    let (code, symbols, _) = generated(src);
    let out = tac::render(&code, &symbols);
    assert_eq!(
        out,
        "three-address code:\nbegin Main\n  t0 = 1 + 2\n  print t0\nend Main\n\n"
    );
}

#[test]
fn concat_keeps_both_lists() {
    let a = vec![tac::Instr::new(Opcode::Label, None, Some(3), None)];
    let b = vec![
        tac::Instr::new(Opcode::Jump, None, Some(3), None),
        tac::Instr::new(Opcode::Print, None, Some(1), None),
    ];
    let c = tac::concat(a, b);
    assert_eq!(c.len(), 3);
    assert_eq!(c[0].op, Opcode::Label);
    assert_eq!(c[2].op1, Some(1));
}

#[test]
fn every_method_is_wrapped() {
    let src = "class Main { public static void main(String[] a) { System.out.println(new C().f()) ; } }
               class C { public int f() { int x ; x = 1 ; return x ; } }";
    let (code, _, _) = generated(src);
    assert_eq!(code[0].op, Opcode::Begin);
    assert_eq!(code.last().unwrap().op, Opcode::End);
    let begins = code.iter().filter(|i| i.op == Opcode::Begin).count();
    let ends = code.iter().filter(|i| i.op == Opcode::End).count();
    assert_eq!((begins, ends), (2, 2));
}

// ---------- preprocessor ----------

#[test]
fn comments_keep_lines_and_map_every_byte() {
    let src = "a /* x\ny */ é // z\nb";
    let (out, map) = preprocessor::remove_comments(src).unwrap();
    assert_eq!(out, "a \n é \nb");
    assert_eq!(out.matches('\n').count(), src.matches('\n').count());
    assert_eq!(map.mapping.len(), out.len());
    // The `é` (two bytes) comes from line 2, column 6.
    let pos = out.find('é').unwrap();
    assert_eq!(map.get(pos), (2, 6));
    assert_eq!(map.get(pos + 1), (2, 6));
}

#[test]
fn preprocess_maps_back_to_the_source() {
    let src = "int    x ;\n  y = 1 ;";
    let (out, map) = preprocessor::preprocess(src).unwrap();
    assert_eq!(out, "int x;\ny=1;");
    assert_eq!(map.mapping.len(), out.len());
    // `x` is at column 8 of line 1, `y` at column 3 of line 2.
    assert_eq!(map.get(4), (1, 8));
    assert_eq!(map.get(7), (2, 3));
}

#[test]
fn unclosed_comment_in_preprocess() {
    match preprocessor::preprocess("x\n/* open") {
        Err(e) => assert_eq!(e, PreprocessError::UnclosedBlockComment { line: 2 }),
        Ok(_) => panic!("expected an error"),
    }
}

#[test]
fn source_map_past_the_end() {
    let empty = SourceMap::new();
    assert_eq!(empty.get(5), (1, 1));
    let m = SourceMap { mapping: vec![(1, 1), (3, 4)] };
    assert_eq!(m.get(1), (3, 4));
    assert_eq!(m.get(9), (3, 4));
}

#[test]
fn unicode_whitespace_between_words_becomes_one_space() {
    let map = SourceMap { mapping: vec![(1, 1); 16] };
    let (out, map) = preprocessor::remove_unnecessary_white_spaces("a\u{2003}\u{2003}b", map);
    assert_eq!(out, "a b");
    assert_eq!(map.mapping.len(), 3);
}

// ---------- lexical analysis and the AST printer ----------

#[test]
fn tokens_end_with_one_eof() {
    let lex = lexical_analyzer::tokenize("class A { } // tail", false);
    assert_eq!(lex.tokens.last().unwrap().class, TokenClass::Eof);
    assert_eq!(lex.tokens.iter().filter(|t| t.class == TokenClass::Eof).count(), 1);
}

#[test]
fn non_ascii_letters_form_identifiers() {
    let lex = lexical_analyzer::tokenize("ação", false);
    assert!(lex.errors.is_empty());
    assert_eq!(lex.tokens[0].class, TokenClass::Id);
    assert_eq!(lex.tokens[0].lexeme, "ação");
}

#[test]
fn keyword_suggestion_uses_edit_distance() {
    assert_eq!(lexical_analyzer::suggest_keyword("whle").as_deref(), Some("while"));
    assert_eq!(lexical_analyzer::suggest_keyword("xyzzyq"), None);
}

#[test]
fn ast_height_bounds_the_printer() {
    let src = "class Main { public static void main(String[] a) { System.out.println(1 + 2) ; } }";
    let lex = lexical_analyzer::tokenize(src, false);
    let (program, _) = syntatic_analyzer::parse(&lex.tokens).expect("should parse");
    assert_eq!(program.height(), Some(6));
    let text = program.pretty();
    assert!(text.starts_with("Program\n  MainClass Main (args: a)\n"), "got:\n{text}");
    assert!(text.contains("      Add\n"), "got:\n{text}");
}

const FULL_PROGRAM: &str = "class Main { public static void main(String[] a) { System.out.println(new B().run(3)); } }
class A { int n; public int get() { n = 1; return n; } }
class B extends A {
    int[] v;
    public int run(int k) {
        boolean ok;
        v = new int[k];
        v[0] = 2;
        ok = !(k < 1) && true;
        if (ok) { n = v[0] * 3 - 1; } else { n = v.length; }
        while (n < 10) { n = n + 1; }
        return this.get();
    }
}";

#[test]
fn lax_mode_gives_the_strict_result() {
    let lex = lexical_analyzer::tokenize(FULL_PROGRAM, false);
    assert!(lex.errors.is_empty());
    let (p1, s1) = syntatic_analyzer::parse_with(&lex.tokens, false).expect("strict parse");
    let (p2, s2) = syntatic_analyzer::parse_with(&lex.tokens, true).expect("lax parse");
    assert_eq!(p1.pretty(), p2.pretty());
    assert_eq!(s1.render(), s2.render());
}

#[test]
fn strict_mode_is_the_default() {
    let lex = lexical_analyzer::tokenize(FULL_PROGRAM, false);
    let (p1, s1) = syntatic_analyzer::parse(&lex.tokens).expect("default parse");
    let (p2, s2) = syntatic_analyzer::parse_with(&lex.tokens, false).expect("strict parse");
    assert_eq!(p1.pretty(), p2.pretty());
    assert_eq!(s1.render(), s2.render());

    let bad = lexical_analyzer::tokenize("class Main { public static void main(String[] a) { } }", false);
    let e1 = syntatic_analyzer::parse(&bad.tokens).err().expect("default rejects");
    let e2 = syntatic_analyzer::parse_with(&bad.tokens, false).err().expect("strict rejects");
    assert_eq!(e1, e2);
}

#[test]
fn fail_fast_reports_the_first_error_only() {
    let src = "int x = 1 # y 12ab $ ;";
    let full = lexical_analyzer::tokenize(src, false);
    let ff = lexical_analyzer::tokenize(src, true);
    assert_eq!(full.errors.len(), 3);
    assert_eq!(ff.errors.len(), 1);
    assert_eq!(ff.errors[0], full.errors[0]);
    for i in 0..ff.tokens.len() - 1 {
        assert_eq!(ff.tokens[i].lexeme, full.tokens[i].lexeme);
        assert_eq!(ff.tokens[i].line, full.tokens[i].line);
        assert_eq!(ff.tokens[i].column, full.tokens[i].column);
    }
}

#[test]
fn fail_fast_changes_nothing_without_errors() {
    let src = "class A { int x; } // done";
    let full = lexical_analyzer::tokenize(src, false);
    let ff = lexical_analyzer::tokenize(src, true);
    assert!(full.errors.is_empty() && ff.errors.is_empty());
    assert_eq!(full.tokens.len(), ff.tokens.len());
    for i in 0..ff.tokens.len() {
        assert_eq!(ff.tokens[i].lexeme, full.tokens[i].lexeme);
        assert_eq!(ff.tokens[i].class, full.tokens[i].class);
        assert_eq!(ff.tokens[i].symbol, full.tokens[i].symbol);
    }
}

#[test]
fn comment_removal_leaves_no_opener_and_is_stable() {
    let src = "a = 1; // note\n/* block\n spans */ b = a / 2;\nc = 3 * 4; /**/ d";
    let (out, map) = preprocessor::remove_comments(src).expect("closed comments");
    assert_eq!(out, "a = 1; \n\n b = a / 2;\nc = 3 * 4;  d");
    assert!(!out.contains("//") && !out.contains("/*"));
    assert_eq!(map.mapping.len(), out.len());
    let (again, _) = preprocessor::remove_comments(&out).expect("no comments left");
    assert_eq!(again, out);
}

#[test]
fn comment_free_source_is_unchanged() {
    let src = "x = a / b * c;\ny = 2;";
    let (out, _) = preprocessor::remove_comments(src).expect("no comments");
    assert_eq!(out, src);
}

#[test]
fn whitespace_removal_keeps_visible_chars_and_is_stable() {
    let src = "  int   x ;\n\tif ( a  <  b )   {  y = x ;  }  ";
    let (out, map) = preprocessor::remove_unnecessary_white_spaces(src, SourceMap::new());
    assert_eq!(out, "int x;\nif(a<b){y=x;}");
    assert_eq!(map.mapping.len(), out.len());
    let keep = |t: &str| t.chars().filter(|c| !c.is_whitespace() || *c == '\n').collect::<String>();
    assert_eq!(keep(&out), keep(src));
    let chars: Vec<char> = out.chars().collect();
    for (k, c) in chars.iter().enumerate() {
        if *c == ' ' {
            assert!(k > 0 && k + 1 < chars.len());
            assert!(chars[k - 1].is_alphanumeric() || chars[k - 1] == '_');
            assert!(chars[k + 1].is_alphanumeric() || chars[k + 1] == '_');
        }
    }
    let (again, _) = preprocessor::remove_unnecessary_white_spaces(&out, SourceMap::new());
    assert_eq!(again, out);
}
