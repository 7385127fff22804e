use proc_macro2::Span;
use safety::checked::apply_checked;
use safety::checked::expand_checked;
use safety::checked::is_checked_attr;
use safety::checked::parse_args;
use safety::checked::rewrite_call;
use safety::checked::take_checked_attr;
use safety::checked::write_prelude;
use safety::code::Attr;
use safety::code::CallExpr;
use safety::code::Code;
use safety::code::Expression;
use safety::code::Let;
use safety::code::Meta;
use safety::code::MethodCallExpr;
use safety::code::OtherExpr;
use safety::code::PathExpr;
use safety::code::PathSegment;
use safety::code::UnsafeExpr;
use safety::diagnostic::Diagnostic;
use safety::diagnostic::Extent;
use safety::diagnostic::Message;
use safety::hash::tagset_hash;
use safety::tags::CheckedArgs;
use safety::token::Delimiter;
use safety::token::Ident;
use safety::token::Token;
use safety::walk::CheckedExpander;

fn here() -> Span {
    Span::call_site()
}

fn extent() -> Extent {
    Extent { first: here(), last: here() }
}

fn ident(name: &str) -> Ident {
    Ident { text: name.to_string(), span: here() }
}

fn attribute(path: &[&str], meta: Meta) -> Attr {
    Attr {
        inner: false,
        leading_colon: false,
        path: path.iter().map(|segment| ident(segment)).collect(),
        meta,
        children: vec![],
        extent: extent(),
        source: 0,
    }
}

fn checked_attribute(args: &str) -> Attr {
    attribute(
        &["safety", "checked"],
        Meta::List { tokens: args.parse().unwrap(), close: here() },
    )
}

fn other() -> Expression {
    Expression::Other(OtherExpr { children: vec![], extent: extent(), source: 7 })
}

fn path(segments: &[(&str, Option<usize>)]) -> Expression {
    Expression::Path(PathExpr {
        segments: segments
            .iter()
            .map(|(name, arguments)| PathSegment { ident: ident(name), arguments: *arguments })
            .collect(),
        children: vec![],
        extent: extent(),
        source: 1,
    })
}

fn call(attrs: Vec<Attr>, func: Expression, args: Vec<Code>) -> Expression {
    Expression::Call(CallExpr {
        attrs,
        func: Box::new(func),
        args,
        bare: extent(),
        source: 2,
    })
}

fn block(attrs: Vec<Attr>, stmts: Vec<Code>) -> Expression {
    Expression::Unsafe(UnsafeExpr { attrs, stmts, bare: extent(), source: 3 })
}

fn method(attrs: Vec<Attr>) -> Expression {
    Expression::MethodCall(MethodCallExpr { attrs, children: vec![], bare: extent(), source: 4 })
}

fn local(attrs: Vec<Attr>, init: Option<Expression>) -> Let {
    Let {
        attrs,
        pattern: vec![],
        init: init.map(|init| Box::new(init)),
        diverge: vec![],
        bare: extent(),
        source: 5,
    }
}

fn texts(error: &Diagnostic) -> Vec<String> {
    error
        .messages
        .iter()
        .map(|message| match message {
            Message::Text { text, .. } => text.clone(),
            Message::Syntax(error) => format!("syntax: {}", error),
        })
        .collect()
}

fn attribute_text(attr: &Attr) -> String {
    let names: Vec<String> = attr.path.iter().map(|segment| segment.text.clone()).collect();
    format!("#[{}] ", names.join("::"))
}

fn attributes_text(attrs: &[Attr]) -> String {
    attrs.iter().map(attribute_text).collect()
}

/// An expression, written out.
fn show(expr: &Expression) -> String {
    match expr {
        Expression::Unsafe(u) => {
            format!("{}unsafe {{ {} }}", attributes_text(&u.attrs), show_all(&u.stmts))
        }
        Expression::Call(c) => {
            format!("{}{}({})", attributes_text(&c.attrs), show(&c.func), show_all(&c.args))
        }
        Expression::MethodCall(m) => format!("{}m({})", attributes_text(&m.attrs), show_all(&m.children)),
        Expression::Path(p) => {
            let segments: Vec<String> = p
                .segments
                .iter()
                .map(|segment| match segment.arguments {
                    Some(number) => format!("{}::<#{}>", segment.ident.text, number),
                    None => segment.ident.text.clone(),
                })
                .collect();
            segments.join("::")
        }
        Expression::Checked(k) => format!("{{ {} {} }}", write(&k.prelude), show(&k.inner)),
        Expression::Other(o) => format!("other({})", show_all(&o.children)),
    }
}

fn show_code(code: &Code) -> String {
    match code {
        Code::Expression(expr) => show(expr),
        Code::Let(local) => format!(
            "{}let {} = {} else {};",
            attributes_text(&local.attrs),
            show_all(&local.pattern),
            match &local.init {
                Some(init) => show(init),
                None => "nothing".to_string(),
            },
            show_all(&local.diverge)
        ),
        Code::Attr(attr) => attribute_text(attr),
        Code::Other { children, .. } => format!("statement({})", show_all(children)),
    }
}

fn show_all(codes: &[Code]) -> String {
    let parts: Vec<String> = codes.iter().map(show_code).collect();
    parts.join("; ")
}

/// Tokens, written out.
fn write(tokens: &[Token]) -> String {
    let parts: Vec<String> = tokens
        .iter()
        .map(|token| match token {
            Token::Ident(ident) | Token::Keyword(ident) => ident.text.clone(),
            Token::Punct { ch, .. } => ch.to_string(),
            Token::Str(value, _) => format!("{:?}", value),
            Token::Literal(text, _) => text.clone(),
            Token::Group { delimiter, tokens, .. } => {
                let (open, close) = match delimiter {
                    Delimiter::Parenthesis => ("(", ")"),
                    Delimiter::Brace => ("{", "}"),
                    Delimiter::Bracket => ("[", "]"),
                    Delimiter::Invisible => ("", ""),
                };
                format!("{}{}{}", open, write(tokens), close)
            }
        })
        .collect();
    parts.join(" ")
}

fn args(text: &str) -> CheckedArgs {
    match CheckedArgs::parse(text.parse().unwrap(), here()) {
        Ok(args) => args,
        Err(_) => panic!("arguments that cannot be read"),
    }
}

fn walk(codes: &mut Vec<Code>) -> Vec<String> {
    let mut expander = CheckedExpander { error: None, call_site: here() };
    expander.visit_codes_mut(codes);
    match &expander.error {
        Some(error) => texts(error),
        None => vec![],
    }
}

#[test]
fn checked_attributes_are_told_by_their_path() {
    assert!(is_checked_attr(&attribute(&["checked"], Meta::Path)));
    assert!(is_checked_attr(&attribute(&["safety", "checked"], Meta::Path)));
    assert!(!is_checked_attr(&attribute(&["safety"], Meta::Path)));
    assert!(!is_checked_attr(&attribute(&["checks"], Meta::Path)));
    assert!(!is_checked_attr(&attribute(&["other", "checked"], Meta::Path)));
    assert!(!is_checked_attr(&attribute(&["checked", "safety"], Meta::Path)));
    assert!(!is_checked_attr(&attribute(&["a", "safety", "checked"], Meta::Path)));
    assert!(!is_checked_attr(&attribute(&["r#checked"], Meta::Path)));
}

#[test]
fn the_first_checked_attribute_is_taken() {
    let mut attrs = vec![
        attribute(&["allow"], Meta::Path),
        attribute(&["checked"], Meta::Path),
        attribute(&["safety", "checked"], Meta::Path),
    ];
    let taken = take_checked_attr(&mut attrs).unwrap();
    assert_eq!(attribute_text(&taken), "#[checked] ");
    assert_eq!(attributes_text(&attrs), "#[allow] #[safety::checked] ");
    let mut none = vec![attribute(&["allow"], Meta::Path)];
    assert!(take_checked_attr(&mut none).is_none());
    assert_eq!(none.len(), 1);
}

#[test]
fn a_call_is_led_to_the_entry_point() {
    let mut expr = call(vec![], path(&[("f", None)]), vec![]);
    assert!(rewrite_call(&mut expr, "1f", here()).is_ok());
    assert_eq!(show(&expr), "f::__safety_1f()");
}

#[test]
fn a_turbofish_moves_onto_the_entry_point() {
    let mut expr = call(vec![], path(&[("a", Some(0)), ("f", Some(1))]), vec![]);
    assert!(rewrite_call(&mut expr, "1f", here()).is_ok());
    assert_eq!(show(&expr), "a::<#0>::f::__safety_1f::<#1>()");
}

#[test]
fn a_call_in_unsafe_blocks_is_led_to_the_entry_point() {
    let inner = call(vec![], path(&[("f", None)]), vec![]);
    let mut expr = block(vec![], vec![Code::Expression(block(vec![], vec![Code::Expression(inner)]))]);
    assert!(rewrite_call(&mut expr, "1f", here()).is_ok());
    assert_eq!(show(&expr), "unsafe { unsafe { f::__safety_1f() } }");
}

fn refused(mut expr: Expression) -> String {
    let before = show(&expr);
    let error = rewrite_call(&mut expr, "1f", here()).err().unwrap();
    assert_eq!(show(&expr), before);
    let texts = texts(&error);
    assert_eq!(texts.len(), 1);
    texts[0].clone()
}

#[test]
fn an_unsafe_block_must_hold_exactly_one_call() {
    let text = "#[safety::checked] requires the unsafe block to contain exactly one call";
    let f = || Code::Expression(call(vec![], path(&[("f", None)]), vec![]));
    assert_eq!(refused(block(vec![], vec![])), text);
    assert_eq!(refused(block(vec![], vec![f(), f()])), text);
    assert_eq!(refused(block(vec![], vec![Code::Let(local(vec![], None))])), text);
    assert_eq!(
        refused(block(
            vec![],
            vec![Code::Other { children: vec![], extent: extent() }]
        )),
        text
    );
}

#[test]
fn only_paths_can_be_called() {
    assert_eq!(
        refused(call(vec![], other(), vec![])),
        "#[safety::checked] only supports direct path calls like `f(..)` or `path::to::f(..)`"
    );
    assert_eq!(refused(call(vec![], path(&[]), vec![])), "empty call path");
}

#[test]
fn methods_cannot_be_called() {
    assert_eq!(
        refused(method(vec![])),
        "#[safety::checked] does not support method-call syntax; use a path call"
    );
}

#[test]
fn anything_else_is_no_call() {
    let text = "#[safety::checked] expects a single function call, optionally wrapped in `unsafe { .. }`";
    assert_eq!(refused(other()), text);
    assert_eq!(refused(path(&[("f", None)])), text);
}

#[test]
fn reasons_are_embedded_and_markers_used() {
    let args = args("Init = \"u8 is\", delegate(ValidPtr = \"by the caller\", r#type = \"t\")");
    assert_eq!(
        write(&write_prelude(&args, here())),
        "const _ : & [(& str , & str)] = & [(\"Init\" , \"u8 is\") , (\"ValidPtr\" , \"by the caller\") , (\"r#type\" , \"t\")] ; \
         let _ = __safety_delegates_ValidPtr ; let _ = __safety_delegates_type ;"
    );
}

#[test]
fn a_checked_call_stands_in_a_block() {
    let mut expr = call(vec![], path(&[("read", None)]), vec![]);
    let args = args("ValidPtr = \"p\", Init = \"i\"");
    assert!(apply_checked(&args, &mut expr, here()).is_ok());
    assert_eq!(
        show(&expr),
        "{ const _ : & [(& str , & str)] = & [(\"ValidPtr\" , \"p\") , (\"Init\" , \"i\")] ; read::__safety_65a2bdcb8cce295d() }"
    );
}

#[test]
fn discharged_and_delegated_tags_account_for_the_same_entry_point() {
    for text in [
        "ValidPtr = \"p\", Init = \"i\"",
        "Init = \"other words\", delegate(ValidPtr = \"p\")",
        "delegate(Init = \"i\", ValidPtr = \"p\")",
        "Init = \"i\", ValidPtr = \"p\", Init = \"again\"",
    ] {
        let mut expr = call(vec![], path(&[("read", None)]), vec![]);
        assert!(apply_checked(&args(text), &mut expr, here()).is_ok());
        match &expr {
            Expression::Checked(k) => {
                assert_eq!(show(&k.inner), "read::__safety_65a2bdcb8cce295d()")
            }
            _ => panic!("no checked call"),
        }
    }
}

#[test]
fn incomplete_accounting_leads_elsewhere() {
    let mut expr = call(vec![], path(&[("read", None)]), vec![]);
    assert!(apply_checked(&args("ValidPtr = \"p\""), &mut expr, here()).is_ok());
    let required = tagset_hash(&[ident("ValidPtr"), ident("Init")]);
    assert!(!show(&expr).contains(&required));
}

#[test]
fn an_attribute_without_arguments_is_an_error() {
    let error = parse_args(attribute(&["safety", "checked"], Meta::Path)).err().unwrap();
    assert_eq!(
        texts(&error),
        vec!["expected attribute arguments in parentheses: #[safety::checked(...)]"]
    );
    let mut attr = attribute(&["checked"], Meta::Path);
    attr.inner = true;
    attr.leading_colon = true;
    assert_eq!(
        texts(&parse_args(attr).err().unwrap()),
        vec!["expected attribute arguments in parentheses: #![::checked(...)]"]
    );
}

#[test]
fn an_attribute_with_a_value_is_an_error() {
    let attr = attribute(&["checked"], Meta::NameValue { eq: here() });
    assert_eq!(
        texts(&parse_args(attr).err().unwrap()),
        vec!["expected parentheses: #[checked(...)]"]
    );
}

#[test]
fn an_expansion_that_fails_leaves_the_expression_as_it_is() {
    let mut expr = call(vec![], path(&[("f", None)]), vec![]);
    assert!(expand_checked(checked_attribute("A"), &mut expr, here()).is_err());
    assert_eq!(show(&expr), "f()");
    let mut expr = method(vec![]);
    assert!(expand_checked(checked_attribute("A = \"a\""), &mut expr, here()).is_err());
    assert_eq!(show(&expr), "m()");
}

#[test]
fn the_walk_expands_attributes_wherever_they_stand() {
    let prelude = "const _ : & [(& str , & str)] = & [(\"A\" , \"a\")] ;";
    let f = |attrs| call(attrs, path(&[("f", None)]), vec![]);
    let mut codes = vec![
        Code::Expression(block(
            vec![checked_attribute("A = \"a\"")],
            vec![Code::Expression(f(vec![]))],
        )),
        Code::Expression(Expression::Other(OtherExpr {
            children: vec![Code::Expression(f(vec![
                attribute(&["allow"], Meta::Path),
                checked_attribute("A = \"a\""),
            ]))],
            extent: extent(),
            source: 0,
        })),
        Code::Let(local(vec![checked_attribute("A = \"a\"")], Some(f(vec![])))),
        Code::Other {
            children: vec![Code::Expression(f(vec![checked_attribute("A = \"a\"")]))],
            extent: extent(),
        },
    ];
    assert_eq!(walk(&mut codes), Vec::<String>::new());
    let h = "af63fc4c860222ec";
    assert_eq!(
        show_all(&codes),
        format!(
            "{{ {p} unsafe {{ f::__safety_{h}() }} }}; \
             other({{ {p} #[allow] f::__safety_{h}() }}); \
             let  = {{ {p} f::__safety_{h}() }} else ;; \
             statement({{ {p} f::__safety_{h}() }})",
            p = prelude,
            h = h
        )
    );
}

#[test]
fn the_walk_goes_on_into_a_checked_call() {
    let inner = call(vec![checked_attribute("B = \"b\"")], path(&[("g", None)]), vec![]);
    let mut codes = vec![Code::Expression(call(
        vec![checked_attribute("A = \"a\"")],
        path(&[("f", None)]),
        vec![Code::Expression(inner)],
    ))];
    assert_eq!(walk(&mut codes), Vec::<String>::new());
    assert_eq!(
        show_all(&codes),
        "{ const _ : & [(& str , & str)] = & [(\"A\" , \"a\")] ; f::__safety_af63fc4c860222ec(\
         { const _ : & [(& str , & str)] = & [(\"B\" , \"b\")] ; g::__safety_af63ff4c86022805() }) }"
    );
}

#[test]
fn a_second_attribute_on_a_call_is_expanded_on_what_came_of_it() {
    let mut codes = vec![Code::Expression(call(
        vec![checked_attribute("A = \"a\""), checked_attribute("B = \"b\"")],
        path(&[("f", None)]),
        vec![],
    ))];
    assert_eq!(walk(&mut codes), Vec::<String>::new());
    assert_eq!(
        show_all(&codes),
        "{ const _ : & [(& str , & str)] = & [(\"A\" , \"a\")] ; \
         { const _ : & [(& str , & str)] = & [(\"B\" , \"b\")] ; \
         f::__safety_af63fc4c860222ec::__safety_af63ff4c86022805() } }"
    );
}

#[test]
fn a_second_attribute_on_a_let_is_reported() {
    let mut codes = vec![Code::Let(local(
        vec![checked_attribute("A = \"a\""), checked_attribute("B = \"b\"")],
        Some(call(vec![], path(&[("f", None)]), vec![])),
    ))];
    assert_eq!(
        walk(&mut codes),
        vec!["#[safety::checked] expects a single function call, optionally wrapped in `unsafe { .. }`"]
    );
    assert!(show_all(&codes).starts_with("let"));
}

#[test]
fn every_attribute_of_a_let_that_fails_is_reported() {
    let mut codes = vec![Code::Let(local(
        vec![checked_attribute(""), checked_attribute("B")],
        Some(call(vec![], path(&[("f", None)]), vec![])),
    ))];
    assert_eq!(
        walk(&mut codes),
        vec![
            "unexpected end of input, expected at least one tag",
            "safety tag `B` is missing its reason string: write `B = \"why this invariant holds at this call site\"`",
        ]
    );
    assert!(show_all(&codes).starts_with("let"));
}

#[test]
fn an_attribute_elsewhere_is_reported() {
    let mut codes = vec![
        Code::Expression(Expression::Other(OtherExpr {
            children: vec![
                Code::Attr(attribute(&["allow"], Meta::Path)),
                Code::Attr(checked_attribute("A = \"a\"")),
            ],
            extent: extent(),
            source: 0,
        })),
        Code::Attr(attribute(&["checked"], Meta::Path)),
        Code::Attr(attribute(&["allow"], Meta::Path)),
    ];
    let text = "#[safety::checked] expects a single function call, optionally wrapped in `unsafe { .. }`";
    assert_eq!(walk(&mut codes), vec![text, text]);
}

#[test]
fn code_in_the_value_of_an_attribute_is_expanded() {
    let f = call(vec![checked_attribute("A = \"a\"")], path(&[("f", None)]), vec![]);
    let mut attr = attribute(&["doc"], Meta::NameValue { eq: here() });
    attr.children = vec![Code::Expression(f)];
    let mut codes = vec![Code::Expression(block(vec![attr], vec![]))];
    assert_eq!(walk(&mut codes), Vec::<String>::new());
    match &codes[0] {
        Code::Expression(Expression::Unsafe(u)) => {
            assert!(show_all(&u.attrs[0].children).contains("f::__safety_af63fc4c860222ec()"))
        }
        _ => panic!("no unsafe block"),
    }
}

#[test]
fn a_let_without_an_initializer_cannot_be_checked() {
    let mut codes = vec![Code::Let(local(vec![checked_attribute("A = \"a\"")], None))];
    assert_eq!(
        walk(&mut codes),
        vec!["#[safety::checked] on a `let` requires an initializer"]
    );
}

#[test]
fn all_errors_are_reported_in_order() {
    let mut codes = vec![
        Code::Expression(method(vec![checked_attribute("A = \"a\"")])),
        Code::Let(local(vec![checked_attribute("A = \"a\"")], None)),
        Code::Expression(call(
            vec![checked_attribute("")],
            path(&[("f", None)]),
            vec![Code::Expression(call(vec![checked_attribute("B")], path(&[("g", None)]), vec![]))],
        )),
    ];
    assert_eq!(
        walk(&mut codes),
        vec![
            "#[safety::checked] does not support method-call syntax; use a path call",
            "#[safety::checked] on a `let` requires an initializer",
            "unexpected end of input, expected at least one tag",
            "safety tag `B` is missing its reason string: write `B = \"why this invariant holds at this call site\"`",
        ]
    );
}

#[test]
fn code_without_attributes_is_left_alone() {
    let mut codes = vec![
        Code::Expression(block(
            vec![attribute(&["allow"], Meta::Path)],
            vec![Code::Expression(call(vec![], path(&[("f", Some(0))]), vec![Code::Expression(other())]))],
        )),
        Code::Let(local(vec![], Some(method(vec![])))),
    ];
    let before = show_all(&codes);
    assert_eq!(walk(&mut codes), Vec::<String>::new());
    assert_eq!(show_all(&codes), before);
}

#[test]
fn errors_are_added_behind_those_found_before() {
    let mut expander = CheckedExpander { error: None, call_site: here() };
    expander.push(Diagnostic::new(here(), "first".to_string()));
    expander.push(Diagnostic::new_spanned(extent(), "second".to_string()));
    assert_eq!(texts(expander.error.as_ref().unwrap()), vec!["first", "second"]);
}
