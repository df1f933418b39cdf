use fat_piggy_bank::Alias;
use fat_piggy_bank::Block;
use fat_piggy_bank::ForEachBlock;
use fat_piggy_bank::Identifier;
use fat_piggy_bank::Kind;
use fat_piggy_bank::Member;
use fat_piggy_bank::Model;
use fat_piggy_bank::Param;
use fat_piggy_bank::ParseError;
use fat_piggy_bank::RenderError;
use fat_piggy_bank::Scope;
use fat_piggy_bank::Template;
use fat_piggy_bank::Token;
use fat_piggy_bank::Value;
use fat_piggy_bank::tokenize;
use fat_piggy_bank::convert_to_blocks;
use fat_piggy_bank::parse_tokens;

fn param(name: &str, value: Value) -> Param {
    Param { name: String::from(name), value }
}

fn simple(text: &str) -> Value {
    Value::Simple(String::from(text))
}

fn member(key: &str, value: Value) -> Member {
    Member { key: String::from(key), value }
}

fn render(template: &str, model: &mut Model) -> Result<String, RenderError> {
    Template::new(template).unwrap().substitute(model)
}

#[test]
fn tokenizer_alternates_text_and_expression() {
    let toks: Vec<Token> = tokenize("a{{ x }}b");
    assert_eq!(toks.len(), 3);
    assert!(matches!(toks[0].kind, Kind::Text));
    assert_eq!(toks[0].buffer, "a");
    assert!(matches!(toks[1].kind, Kind::Expression));
    assert_eq!(toks[1].buffer, " x ");
    assert!(matches!(toks[2].kind, Kind::Text));
    assert_eq!(toks[2].buffer, "b");
}

#[test]
fn lone_braces_stay_literal() {
    let toks = tokenize("a{b}c");
    assert_eq!(toks.len(), 1);
    assert_eq!(toks[0].buffer, "a{b}c");
}

#[test]
fn foreach_header_is_recognized() {
    let tok = Token { buffer: String::from(" foreach it in items "), kind: Kind::Expression };
    let fb = ForEachBlock::from(&tok).unwrap();
    assert_eq!(fb.array_name, "items");
    assert_eq!(fb.alias, "it");
}

#[test]
fn foreach_keywords_are_case_insensitive() {
    let tok = Token { buffer: String::from("FOREACH x IN y"), kind: Kind::Expression };
    let fb = ForEachBlock::from(&tok).unwrap();
    assert_eq!(fb.array_name, "y");
    assert_eq!(fb.alias, "x");
}

#[test]
fn foreach_needs_exactly_four_words() {
    let tok = Token { buffer: String::from("foreach x items"), kind: Kind::Expression };
    assert!(ForEachBlock::from(&tok).is_none());
}

#[test]
fn value_text_forms() {
    assert_eq!(simple("one").to_text(), "one");
    let list = Value::List(vec![simple("one"), simple("two")]);
    assert_eq!(list.to_text(), "[ one,two ]");
    let complex = Value::Complex(vec![member("header", simple("Header content."))]);
    assert_eq!(complex.to_text(), "{ header : Header content. }");
}

#[test]
fn dotted_path_resolution() {
    let complex = Value::Complex(vec![
        member("a", simple("1")),
        member("b", Value::List(vec![simple("x"), simple("y")])),
    ]);
    let model = Model::new_with_params(vec![param("obj", complex)]);
    let list = model.get_param("obj.b").unwrap();
    assert_eq!(list.to_text(), "[ x,y ]");
    assert!(model.get_param("obj.b.0").is_none());
    assert!(model.get_param("obj.a").is_some());
    assert!(model.get_param("obj.c").is_none());
}

#[test]
fn first_member_wins_duplicate_keys() {
    let complex = Value::Complex(vec![member("k", simple("first")), member("k", simple("second"))]);
    let model = Model::new_with_params(vec![param("obj", complex)]);
    assert_eq!(model.get_param("obj.k").unwrap().to_text(), "first");
}

#[test]
fn duplicate_param_name_keeps_last() {
    let model = Model::new_with_params(vec![param("x", simple("old")), param("x", simple("new"))]);
    assert_eq!(model.get_param("x").unwrap().to_text(), "new");
}

#[test]
fn alias_resolution() {
    let mut model = Model::new_with_params(vec![param(
        "items",
        Value::List(vec![simple("one"), simple("two")]),
    )]);
    model.set_alias(Alias {
        name: String::from("it"),
        target: String::from("items"),
        identifier: Identifier::Index(1),
    });
    assert_eq!(model.get_param("it").unwrap().to_text(), "two");
    model.set_alias(Alias {
        name: String::from("it"),
        target: String::from("items"),
        identifier: Identifier::Whole,
    });
    assert_eq!(model.get_param("it").unwrap().to_text(), "[ one,two ]");
    model.set_alias(Alias {
        name: String::from("it"),
        target: String::from("items"),
        identifier: Identifier::Index(9),
    });
    assert!(model.get_param("it").is_none());
}

#[test]
fn foreach_alias_binding() {
    let mut model = Model::new_with_params(vec![param(
        "items",
        Value::List(vec![simple("one"), simple("two")]),
    )]);
    let out = render("{{ foreach it in items }}{{ it }},{{ end }}", &mut model).unwrap();
    assert_eq!(out, "one,two,");
}

#[test]
fn unmatched_end_is_a_structural_error() {
    assert_eq!(Template::new("{{ end }}").unwrap_err(), ParseError::UnmatchedEnd);
}

#[test]
fn unclosed_foreach_is_a_structural_error() {
    assert_eq!(Template::new("{{ foreach x in y }}").unwrap_err(), ParseError::UnclosedScope);
}

#[test]
fn missing_variable_names_the_path() {
    let mut model = Model::new_with_params(vec![]);
    let r = render("{{ nope }}", &mut model);
    assert_eq!(r.unwrap_err(), RenderError::MissingVariable(String::from("nope")));
}

#[test]
fn missing_foreach_array_is_reported() {
    let mut model = Model::new_with_params(vec![]);
    let r = render("{{ foreach x in xs }}{{ x }}{{ end }}", &mut model);
    assert_eq!(r.unwrap_err(), RenderError::MissingArray(String::from("xs")));
}

#[test]
fn foreach_over_non_list_is_reported() {
    let mut model = Model::new_with_params(vec![param("xs", simple("scalar"))]);
    let r = render("{{ foreach x in xs }}{{ x }}{{ end }}", &mut model);
    assert_eq!(r.unwrap_err(), RenderError::NotList(String::from("xs")));
}

#[test]
fn literal_text_passes_through() {
    let mut model = Model::new_with_params(vec![]);
    assert_eq!(render("plain text", &mut model).unwrap(), "plain text");
}

#[test]
fn array_template_substitution() {
    let mut model = Model::new_with_params(vec![
        param("items", Value::List(vec![simple("one"), simple("two")])),
        param(
            "info",
            Value::Complex(vec![member("header", simple("Header content."))]),
        ),
    ]);
    let template = "{{ info.header }}\n{{ foreach item in items }}{{ item }}\n{{ end }}";
    let out = render(template, &mut model).unwrap();
    assert_eq!(out, "Header content.\none\ntwo\n");
}

#[test]
fn nested_foreach_renders_inner_per_outer() {
    let mut model = Model::new_with_params(vec![
        param("outer", Value::List(vec![simple("a"), simple("b")])),
        param("inner", Value::List(vec![simple("1"), simple("2")])),
    ]);
    let out = render(
        "{{ foreach o in outer }}{{ o }}:{{ foreach i in inner }}{{ i }}{{ end }};{{ end }}",
        &mut model,
    )
    .unwrap();
    assert_eq!(out, "a:12;b:12;");
}

#[test]
fn alias_binding_outlives_the_loop() {
    let mut model = Model::new_with_params(vec![param(
        "items",
        Value::List(vec![simple("one"), simple("two")]),
    )]);
    let out = render("{{ foreach it in items }}x{{ end }}{{ it }}", &mut model).unwrap();
    assert_eq!(out, "xxtwo");
}

#[test]
fn nested_foreach_reusing_an_alias_overwrites_it() {
    let mut model = Model::new_with_params(vec![
        param("outer", Value::List(vec![simple("a"), simple("b")])),
        param("inner", Value::List(vec![simple("1"), simple("2")])),
    ]);
    let out = render(
        "{{ foreach x in outer }}{{ foreach x in inner }}{{ end }}{{ x }}{{ end }}",
        &mut model,
    )
    .unwrap();
    assert_eq!(out, "22");
}

#[test]
fn convert_to_blocks_builds_the_tree() {
    let root = convert_to_blocks("a{{ x }}").unwrap();
    match root {
        Block::Anonymous(children) => {
            assert_eq!(children.len(), 3);
            assert!(matches!(&children[0], Block::Text(t) if t == "a"));
            assert!(matches!(&children[1], Block::Variable(p) if p == "x"));
            assert!(matches!(&children[2], Block::Text(t) if t.is_empty()));
        },
        _ => panic!("root is not anonymous"),
    }
}

#[test]
fn foreach_scope_owns_its_body() {
    let root = convert_to_blocks("{{ foreach it in items }}hi{{ end }}").unwrap();
    match root {
        Block::Anonymous(children) => {
            assert_eq!(children.len(), 3);
            match &children[1] {
                Block::ForEach(fb) => {
                    assert_eq!(fb.array_name, "items");
                    assert_eq!(fb.alias, "it");
                    assert_eq!(fb.children.len(), 1);
                },
                _ => panic!("no foreach block"),
            }
        },
        _ => panic!("root is not anonymous"),
    }
}

#[test]
fn scope_accumulates_blocks() {
    let mut sc = Scope::anonymous();
    sc.add_block(Block::Text(String::from("hi")));
    match sc.finish() {
        Block::Anonymous(bs) => assert_eq!(bs.len(), 1),
        _ => panic!("not anonymous"),
    }
}

#[test]
fn parse_tokens_rejects_extra_end() {
    let toks = tokenize("{{ foreach a in b }}{{ end }}{{ END }}");
    assert_eq!(parse_tokens(&toks).unwrap_err(), ParseError::UnmatchedEnd);
}
