use proc_macro2::Span;
use proc_macro2::TokenStream;
use safety::code::Attr;
use safety::code::CallExpr;
use safety::code::Code;
use safety::code::Expression;
use safety::code::Meta;
use safety::code::PathExpr;
use safety::code::PathSegment;
use safety::code::UnsafeExpr;
use safety::diagnostic::Diagnostic;
use safety::diagnostic::Extent;
use safety::diagnostic::Message;
use safety::expand::expand_requires;
use safety::expand::requires_parsed;
use safety::item::checks_parsed;
use safety::item::expand_body_checks;
use safety::item::FnArg;
use safety::item::Function;
use safety::item::GenericParam;
use safety::item::Piece;
use safety::tags::TagList;
use safety::token::Delimiter;
use safety::token::Ident;
use safety::token::Token;

fn here() -> Span {
    Span::call_site()
}

fn extent() -> Extent {
    Extent { first: here(), last: here() }
}

fn ident(name: &str) -> Ident {
    Ident { text: name.to_string(), span: here() }
}

fn stream(text: &str) -> TokenStream {
    text.parse().unwrap()
}

/// `unsafe { name() }`, under `#[checked(args)]` if there are any.
fn call(args: Option<&str>, name: &str) -> Code {
    let attrs = match args {
        Some(args) => vec![Attr {
            inner: false,
            leading_colon: false,
            path: vec![ident("checked")],
            meta: Meta::List { tokens: stream(args), close: here() },
            children: vec![],
            extent: extent(),
            source: 0,
        }],
        None => vec![],
    };
    let func = Expression::Path(PathExpr {
        segments: vec![PathSegment { ident: ident(name), arguments: None }],
        children: vec![],
        extent: extent(),
        source: 0,
    });
    let inner = Expression::Call(CallExpr {
        attrs: vec![],
        func: Box::new(func),
        args: vec![],
        bare: extent(),
        source: 0,
    });
    Code::Expression(Expression::Unsafe(UnsafeExpr {
        attrs,
        stmts: vec![Code::Expression(inner)],
        bare: extent(),
        source: 0,
    }))
}

fn function(name: &str, inputs: Vec<FnArg>, block: Vec<Code>) -> Function {
    Function {
        unsafety: true,
        fn_token: here(),
        ident: ident(name),
        generics: vec![],
        inputs,
        block,
    }
}

fn texts(error: &Diagnostic) -> Vec<String> {
    error
        .messages
        .iter()
        .map(|message| match message {
            Message::Text { text, .. } => text.clone(),
            Message::Syntax(error) => format!("syntax: {}", error),
        })
        .collect()
}

fn write(tokens: &[Token]) -> String {
    let parts: Vec<String> = tokens.iter().map(write_token).collect();
    parts.join(" ")
}

fn write_token(token: &Token) -> String {
    match token {
        Token::Ident(ident) | Token::Keyword(ident) => ident.text.clone(),
        Token::Punct { ch, .. } => ch.to_string(),
        Token::Str(value, _) => format!("{:?}", value),
        Token::Literal(text, _) => text.clone(),
        Token::Group { delimiter, tokens, .. } => {
            let (open, close) = match delimiter {
                Delimiter::Parenthesis => ("(", ")"),
                Delimiter::Brace => ("{", "}"),
                Delimiter::Bracket => ("[", "]"),
                Delimiter::Invisible => ("", ""),
            };
            format!("{}{}{}", open, write(tokens), close)
        }
    }
}

fn show_expr(expr: &Expression) -> String {
    match expr {
        Expression::Unsafe(u) => format!("unsafe {{ {} }}", show_codes(&u.stmts)),
        Expression::Call(c) => format!("{}()", show_expr(&c.func)),
        Expression::Path(p) => {
            let names: Vec<String> = p.segments.iter().map(|s| s.ident.text.clone()).collect();
            names.join("::")
        }
        Expression::Checked(k) => format!("{{ {} {} }}", write(&k.prelude), show_expr(&k.inner)),
        _ => "other".to_string(),
    }
}

fn show_codes(codes: &[Code]) -> String {
    let parts: Vec<String> = codes
        .iter()
        .map(|code| match code {
            Code::Expression(expr) => show_expr(expr),
            _ => "other".to_string(),
        })
        .collect();
    parts.join("; ")
}

/// The pieces, written out.
fn show(pieces: &[Piece]) -> String {
    let parts: Vec<String> = pieces
        .iter()
        .map(|piece| match piece {
            Piece::Token(token) => write_token(token),
            Piece::OuterAttributes => "$outer".to_string(),
            Piece::InnerAttributes => "$inner".to_string(),
            Piece::Visibility => "$vis".to_string(),
            Piece::Signature(ident) => format!("$sig({})", ident.text),
            Piece::Statements(codes) => format!("$stmts({})", show_codes(codes)),
            Piece::Body(pieces) => format!("{{{}}}", show(pieces)),
            Piece::Braces(pieces, _) => format!("{{{}}}", show(pieces)),
        })
        .collect();
    parts.join(" ")
}

fn required(attr: &str, func: Function) -> Result<String, Vec<String>> {
    match requires_parsed(stream(attr), Ok(func), "unsafe-lib", here()) {
        Ok(pieces) => Ok(show(&pieces)),
        Err(error) => Err(texts(&error)),
    }
}

fn syntax_error() -> syn::Error {
    syn::Error::new(here(), "expected `fn`")
}

#[test]
fn checks_expands_the_calls_in_a_body() {
    let func = function("main", vec![], vec![call(Some("A = \"a\""), "f"), call(None, "g")]);
    let pieces = checks_parsed(stream(""), Ok(func), here()).ok().unwrap();
    assert_eq!(
        show(&pieces),
        "$outer $vis $sig(main) {$inner $stmts(\
         { const _ : & [(& str , & str)] = & [(\"A\" , \"a\")] ; unsafe { f::__safety_af63fc4c860222ec() } }; \
         unsafe { g() })}"
    );
}

#[test]
fn checks_takes_no_arguments() {
    let func = function("main", vec![], vec![]);
    let error = checks_parsed(stream("A"), Ok(func), here()).err().unwrap();
    assert_eq!(texts(&error), vec!["#[safety::checks] takes no arguments"]);
    let error = checks_parsed(stream("A"), Err(syntax_error()), here()).err().unwrap();
    assert_eq!(texts(&error), vec!["#[safety::checks] takes no arguments"]);
}

#[test]
fn checks_reports_what_the_grammar_says() {
    let error = checks_parsed(stream(""), Err(syntax_error()), here()).err().unwrap();
    assert_eq!(texts(&error), vec!["syntax: expected `fn`"]);
}

#[test]
fn checks_reports_the_errors_in_a_body() {
    let func = function("main", vec![], vec![call(Some("A"), "f"), call(Some(""), "g")]);
    let error = checks_parsed(stream(""), Ok(func), here()).err().unwrap();
    assert_eq!(
        texts(&error),
        vec![
            "safety tag `A` is missing its reason string: write `A = \"why this invariant holds at this call site\"`",
            "unexpected end of input, expected at least one tag",
        ]
    );
}

#[test]
fn a_body_is_expanded_in_place() {
    let mut func = function("main", vec![], vec![call(Some("A = \"a\""), "f")]);
    assert!(expand_body_checks(&mut func, here()).is_ok());
    assert!(show_codes(&func.block).contains("f::__safety_af63fc4c860222ec()"));
    assert_eq!(func.ident.text, "main");
    let mut func = function("main", vec![], vec![call(Some(""), "f")]);
    assert!(expand_body_checks(&mut func, here()).is_err());
}

#[test]
fn requires_moves_the_body_and_leaves_a_wrapper() {
    let mut func = function("read", vec![FnArg::Plain(ident("ptr"))], vec![call(None, "real")]);
    func.generics = vec![GenericParam::Type(ident("T"))];
    assert_eq!(
        required("ValidPtr = \"`ptr` is valid\", Init = \"`ptr` is initialized\"", func).unwrap(),
        "# [doc (hidden)] # [allow (non_camel_case_types)] $vis enum read {} impl read {\
         # [doc (hidden)] # [allow (non_snake_case , clippy : : missing_safety_doc)] pub \
         $sig(__safety_65a2bdcb8cce295d) {\
         # [allow (dead_code , non_snake_case)] fn __safety_delegates_ValidPtr () {} \
         # [allow (dead_code , non_snake_case)] fn __safety_delegates_Init () {} \
         $stmts(unsafe { real() })}} \
         $outer # [doc = \"\"] # [doc = \" # Safety\"] \
         # [doc = \" Callers must discharge each tag with `#[safety::checked(..)]`:\"] \
         # [doc = \" - **`ValidPtr`** — `ptr` is valid\"] \
         # [doc = \" - **`Init`** — `ptr` is initialized\"] \
         # [allow (unused_unsafe)] # [inline (always)] $vis $sig(read) {$inner \
         unsafe extern \"C\" {\
         fn SAFETY_VIOLATION__in_crate_unsafe_lib__unchecked_call_to_read__requires_tag_ValidPtr () ; \
         fn SAFETY_VIOLATION__in_crate_unsafe_lib__unchecked_call_to_read__requires_tag_Init () ;} \
         unsafe {\
         SAFETY_VIOLATION__in_crate_unsafe_lib__unchecked_call_to_read__requires_tag_ValidPtr () ; \
         SAFETY_VIOLATION__in_crate_unsafe_lib__unchecked_call_to_read__requires_tag_Init () ;} \
         unsafe {read : : __safety_65a2bdcb8cce295d : : < T > (ptr)}}"
    );
}

#[test]
fn parameters_and_generics_are_passed_on() {
    let mut func = function(
        "copy",
        vec![FnArg::Plain(ident("from")), FnArg::Plain(ident("to"))],
        vec![],
    );
    func.generics = vec![
        GenericParam::Lifetime,
        GenericParam::Type(ident("T")),
        GenericParam::Const(ident("N")),
    ];
    assert!(required("A = \"a\"", func).unwrap().ends_with(
        "unsafe {copy : : __safety_af63fc4c860222ec : : < T , N > (from , to)}}"
    ));
    let mut func = function("f", vec![], vec![]);
    func.generics = vec![GenericParam::Lifetime];
    assert!(required("A = \"a\"", func)
        .unwrap()
        .ends_with("unsafe {f : : __safety_af63fc4c860222ec ()}}"));
}

#[test]
fn a_delegated_tag_finds_its_marker() {
    let body = vec![call(Some("Init = \"u8\", delegate(ValidPtr = \"by the caller\")"), "read")];
    let func = function("read_first", vec![FnArg::Plain(ident("base"))], body);
    let text = required("ValidPtr = \"`base` is valid\"", func).unwrap();
    assert!(text.contains("fn __safety_delegates_ValidPtr () {}"));
    assert!(text.contains("let _ = __safety_delegates_ValidPtr ;"));
    assert!(text.contains("read::__safety_65a2bdcb8cce295d()"));
    assert!(text.contains("$sig(__safety_22e0527259f80595)"));
}

#[test]
fn a_tag_that_is_not_required_has_no_marker() {
    let text = required("Init = \"i\"", function("f", vec![], vec![])).unwrap();
    assert!(text.contains("fn __safety_delegates_Init () {}"));
    assert!(!text.contains("__safety_delegates_ValidPtr"));
}

#[test]
fn the_call_reaches_what_the_function_defines() {
    let definition =
        required("ValidPtr = \"p\", Init = \"i\"", function("read", vec![], vec![])).unwrap();
    let main =
        function("main", vec![], vec![call(Some("Init = \"x\", ValidPtr = \"&x\""), "read")]);
    let caller = show(&checks_parsed(stream(""), Ok(main), here()).ok().unwrap());
    assert!(definition.contains("$sig(__safety_65a2bdcb8cce295d)"));
    assert!(caller.contains("read::__safety_65a2bdcb8cce295d()"));
}

#[test]
fn rewording_a_reason_keeps_the_entry_point() {
    let one = required("A = \"one\"", function("f", vec![], vec![])).unwrap();
    let two = required("A = \"two\"", function("f", vec![], vec![])).unwrap();
    assert_eq!(one.replace("one", "two"), two);
}

#[test]
fn only_unsafe_functions_can_require_tags() {
    let mut func = function("f", vec![], vec![]);
    func.unsafety = false;
    assert_eq!(
        required("A", func),
        Err(vec!["#[safety::requires] may only be applied to `unsafe fn`".to_string()])
    );
}

#[test]
fn required_tags_need_reasons() {
    assert_eq!(
        required("A = \"a\", B", function("f", vec![FnArg::Receiver(extent())], vec![])),
        Err(vec![
            "safety tag `B` is missing its reason string: write `B = \"what callers must uphold\"`"
                .to_string()
        ])
    );
}

#[test]
fn methods_cannot_require_tags() {
    assert_eq!(
        required("A = \"a\"", function("f", vec![FnArg::Receiver(extent())], vec![])),
        Err(vec!["this minimal implementation does not support methods (`self`)".to_string()])
    );
}

#[test]
fn parameters_must_have_names() {
    assert_eq!(
        required(
            "A = \"a\"",
            function("f", vec![FnArg::Plain(ident("x")), FnArg::Pattern(extent())], vec![])
        ),
        Err(vec![
            "this minimal implementation only supports plain identifier parameters".to_string()
        ])
    );
}

#[test]
fn errors_in_a_body_come_before_those_in_the_parameters() {
    let func = function("f", vec![FnArg::Receiver(extent())], vec![call(Some(""), "g")]);
    assert_eq!(
        required("A = \"a\"", func),
        Err(vec!["unexpected end of input, expected at least one tag".to_string()])
    );
}

#[test]
fn errors_in_the_tags_come_before_those_of_the_grammar() {
    let error =
        requires_parsed(stream(""), Err(syntax_error()), "lib", here()).err().unwrap();
    assert_eq!(
        texts(&error),
        vec![
            "unexpected end of input, expected at least one safety tag: #[safety::requires(Tag = \"reason\")]"
        ]
    );
    let error =
        requires_parsed(stream("A"), Err(syntax_error()), "lib", here()).err().unwrap();
    assert_eq!(texts(&error), vec!["syntax: expected `fn`"]);
}

#[test]
fn the_package_name_is_made_a_part_of_an_identifier() {
    let specs = TagList::parse(stream("A = \"a\""), here()).ok().unwrap().0;
    let pieces =
        expand_requires(specs, function("f", vec![], vec![]), "a-b.c_d", here()).ok().unwrap();
    assert!(show(&pieces).contains("SAFETY_VIOLATION__in_crate_a_b_c_d__unchecked_call_to_f"));
}
