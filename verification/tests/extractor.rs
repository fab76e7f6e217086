use require_graph::parser::{parse, MAX_SOURCE_BYTES};
use require_graph::syntax::{
    declarator_reference, extract, Argument, Binding, Callee, Declarator, Initializer, Statement,
    SyntaxTree,
};

fn references(source: &str) -> Vec<String> {
    extract(&parse(source).expect("the source is a valid module"))
}

fn call(callee: Callee, arguments: Vec<Argument>) -> Initializer {
    Initializer::Call { callee, arguments }
}

fn require(arguments: Vec<Argument>) -> Initializer {
    call(Callee::Identifier("require".to_string()), arguments)
}

fn literal(value: &str) -> Argument {
    Argument::StringLiteral(value.to_string())
}

fn named(init: Initializer) -> Declarator {
    Declarator { binding: Binding::Identifier, init }
}

#[test]
fn top_level_requires_are_found_in_order() {
    let found = references(
        "const a = require(\"./a\");\nlet b = require('lodash'), c = require(\"./c.js\");\nvar d = require('../d');\n",
    );
    assert_eq!(found, vec!["./a", "lodash", "./c.js", "../d"]);
}

#[test]
fn duplicates_are_kept() {
    assert_eq!(
        references("const a = require('./a'); const again = require('./a');"),
        vec!["./a", "./a"]
    );
}

#[test]
fn an_empty_module_refers_to_nothing() {
    assert_eq!(references(""), Vec::<String>::new());
    assert_eq!(references("// nothing here\n"), Vec::<String>::new());
}

#[test]
fn a_literal_argument_that_is_not_a_string_is_ignored() {
    assert_eq!(references("const x = require(foo);"), Vec::<String>::new());
    assert_eq!(references("const x = require(1);"), Vec::<String>::new());
    assert_eq!(references("const x = require(`./x`);"), Vec::<String>::new());
    assert_eq!(references("const x = require('./' + name);"), Vec::<String>::new());
}

#[test]
fn an_expression_statement_is_ignored() {
    assert_eq!(references("require(\"./x\");"), Vec::<String>::new());
    assert_eq!(references("let x; x = require(\"./x\");"), Vec::<String>::new());
}

#[test]
fn destructuring_is_ignored() {
    assert_eq!(references("const {a} = require(\"./x\");"), Vec::<String>::new());
    assert_eq!(references("const [a] = require(\"./x\");"), Vec::<String>::new());
}

#[test]
fn the_argument_count_must_be_one() {
    assert_eq!(references("const x = require();"), Vec::<String>::new());
    assert_eq!(references("const x = require('./x', './y');"), Vec::<String>::new());
}

#[test]
fn a_spread_argument_is_ignored() {
    assert_eq!(references("const x = require(...'./x');"), Vec::<String>::new());
}

#[test]
fn the_callee_must_be_the_bare_identifier() {
    assert_eq!(references("const x = module.require('./x');"), Vec::<String>::new());
    assert_eq!(references("const x = Require('./x');"), Vec::<String>::new());
    assert_eq!(references("const x = requires('./x');"), Vec::<String>::new());
    assert_eq!(references("const x = (0, require)('./x');"), Vec::<String>::new());
    assert_eq!(references("const x = import('./x');"), Vec::<String>::new());
    assert_eq!(references("const x = new require('./x');"), Vec::<String>::new());
}

#[test]
fn the_call_must_be_the_whole_initializer() {
    assert_eq!(references("const x = require('./x').y;"), Vec::<String>::new());
    assert_eq!(references("const x = require('./x')();"), Vec::<String>::new());
    assert_eq!(references("const x = (require('./x'));"), Vec::<String>::new());
    assert_eq!(references("const x = a || require('./x');"), Vec::<String>::new());
    assert_eq!(references("const x = './x';"), Vec::<String>::new());
    assert_eq!(references("let x;"), Vec::<String>::new());
}

#[test]
fn only_top_level_declarations_count() {
    let source = "function f() { const x = require('./x'); }\nif (true) { const y = require('./y'); }\n{ const z = require('./z'); }\nfor (const w = require('./w'); false;) {}\nexport const e = require('./e');\n";
    assert_eq!(references(source), Vec::<String>::new());
}

#[test]
fn the_literal_value_is_taken_not_its_spelling() {
    assert_eq!(references("const a = require('./\\x61');"), vec!["./a"]);
    assert_eq!(references("const a = require(\"\");"), vec![""]);
}

#[test]
fn recognized_and_ignored_declarators_mix() {
    let found = references(
        "const a = require('./a'), {b} = require('./b'), c = 1, d = require('./d');",
    );
    assert_eq!(found, vec!["./a", "./d"]);
}

#[test]
fn parsing_gives_the_shape_of_each_top_level_item() {
    let tree = parse("const a = require('./a', b), {c} = d;\nlet e;\nf();\nconst g = h.i(...j);")
        .unwrap();
    let expected = SyntaxTree {
        body: vec![
            Statement::Declaration(vec![
                named(require(vec![literal("./a"), Argument::Other])),
                Declarator { binding: Binding::Pattern, init: Initializer::Other },
            ]),
            Statement::Declaration(vec![named(Initializer::Absent)]),
            Statement::Other,
            Statement::Declaration(vec![named(call(Callee::Other, vec![Argument::Other]))]),
        ],
    };
    assert_eq!(tree, expected);
}

#[test]
fn invalid_source_is_refused() {
    let error = parse("const = ;").unwrap_err();
    assert!(!error.message.is_empty());
    assert!(parse("const a = require('./a'").is_err());
    assert!(parse("function (").is_err());
}

#[test]
fn the_source_limit_leaves_room_for_positions() {
    assert_eq!(MAX_SOURCE_BYTES, 4_294_901_758);
    assert_eq!(MAX_SOURCE_BYTES as u64, u64::from(u32::MAX) - (1 << 16) - 1);
}

#[test]
fn a_tree_written_by_hand_is_read_the_same_way() {
    let tree = SyntaxTree {
        body: vec![
            Statement::Other,
            Statement::Declaration(vec![
                named(require(vec![literal("./first")])),
                named(Initializer::Absent),
                named(Initializer::Other),
                named(require(vec![])),
                named(require(vec![Argument::Other])),
                named(require(vec![literal("./x"), literal("./y")])),
                named(call(Callee::Other, vec![literal("./member")])),
                named(call(Callee::Identifier("import".to_string()), vec![literal("./import")])),
                Declarator { binding: Binding::Pattern, init: require(vec![literal("./pattern")]) },
                named(require(vec![literal("lodash")])),
            ]),
            Statement::Declaration(vec![]),
            Statement::Declaration(vec![named(require(vec![literal("./first")]))]),
        ],
    };
    assert_eq!(extract(&tree), vec!["./first", "lodash", "./first"]);
}

#[test]
fn one_declarator_gives_at_most_one_reference() {
    assert_eq!(
        declarator_reference(&named(require(vec![literal("./a")]))),
        Some("./a".to_string())
    );
    assert_eq!(declarator_reference(&named(require(vec![Argument::Other]))), None);
    assert_eq!(declarator_reference(&named(Initializer::Absent)), None);
    assert_eq!(
        declarator_reference(&Declarator {
            binding: Binding::Pattern,
            init: require(vec![literal("./a")]),
        }),
        None
    );
}

#[test]
fn extraction_leaves_the_tree_as_it_was() {
    let tree = parse("const a = require('./a');").unwrap();
    let before = tree.clone();
    let first = extract(&tree);
    let second = extract(&tree);
    assert_eq!(tree, before);
    assert_eq!(first, second);
}

#[test]
fn the_same_text_parses_the_same_way() {
    let source = "const a = require('./a'), {b} = c;\nlet d = e.f(...g);\n";
    assert_eq!(parse(source), parse(source));
    assert_eq!(parse("const = ;"), parse("const = ;"));
    assert_ne!(parse("const a = require('./a');"), parse("const a = require('./b');"));
}
