use proc_macro2::Span;
use proc_macro2::TokenStream;
use safety::code::Attr;
use safety::code::Code;
use safety::code::Expression;
use safety::diagnostic::Diagnostic;
use safety::diagnostic::Message;
use safety::expand::requires_attribute;
use safety::item::checks;
use safety::item::Piece;

fn stream(text: &str) -> TokenStream {
    text.parse().unwrap()
}

fn show_attrs(attrs: &[Attr]) -> String {
    attrs.iter().map(show_attr).collect()
}

fn show_attr(attr: &Attr) -> String {
    let names: Vec<String> = attr.path.iter().map(|segment| segment.text.clone()).collect();
    let bang = if attr.inner { "!" } else { "" };
    format!("#{}[{} {}] ", bang, names.join("::"), show_all(&attr.children))
}

/// An expression, written out: the code in it, and where it leads.
fn show(expr: &Expression) -> String {
    match expr {
        Expression::Unsafe(u) => {
            format!("{}unsafe {{ {} }}", show_attrs(&u.attrs), show_all(&u.stmts))
        }
        Expression::Call(c) => {
            format!("{}{}({})", show_attrs(&c.attrs), show(&c.func), show_all(&c.args))
        }
        Expression::MethodCall(m) => {
            format!("{}method({})", show_attrs(&m.attrs), show_all(&m.children))
        }
        Expression::Path(p) => {
            let segments: Vec<String> = p
                .segments
                .iter()
                .map(|segment| match segment.arguments {
                    Some(_) => format!("{}::<>", segment.ident.text),
                    None => segment.ident.text.clone(),
                })
                .collect();
            format!("{}{}", segments.join("::"), show_all(&p.children))
        }
        Expression::Checked(k) => format!("checked {{ {} }}", show(&k.inner)),
        Expression::Other(o) => format!("other({})", show_all(&o.children)),
    }
}

fn show_code(code: &Code) -> String {
    match code {
        Code::Expression(expr) => show(expr),
        Code::Let(local) => format!(
            "{}let [{}] = {} else [{}]",
            show_attrs(&local.attrs),
            show_all(&local.pattern),
            match &local.init {
                Some(init) => show(init),
                None => "nothing".to_string(),
            },
            show_all(&local.diverge)
        ),
        Code::Attr(attr) => show_attr(attr),
        Code::Other { children, .. } => format!("statement({})", show_all(children)),
    }
}

fn show_all(codes: &[Code]) -> String {
    let parts: Vec<String> = codes.iter().map(show_code).collect();
    parts.join("; ")
}

/// The statements in the pieces.
fn statements(pieces: &[Piece]) -> Vec<String> {
    let mut found = Vec::new();
    for piece in pieces {
        match piece {
            Piece::Statements(codes) => found.push(show_all(codes)),
            Piece::Body(pieces) | Piece::Braces(pieces, _) => found.append(&mut statements(pieces)),
            _ => {}
        }
    }
    found
}

fn body(block: &str) -> String {
    let item = stream(&format!("fn main() {{ {} }}", block));
    match checks(TokenStream::new(), item, Span::call_site()) {
        Ok((pieces, _)) => statements(&pieces).join(""),
        Err(error) => panic!("{}", texts(&error).join("\n")),
    }
}

fn texts(error: &Diagnostic) -> Vec<String> {
    error
        .messages
        .iter()
        .map(|message| match message {
            Message::Text { text, .. } => text.clone(),
            Message::Syntax(error) => format!("syntax: {}", error),
        })
        .collect()
}

const H: &str = "af63fc4c860222ec";

#[test]
fn code_is_met_in_the_order_of_the_source() {
    assert_eq!(
        body("let Some([x, N]) = f(1) else { return g() }; if h(x) { i() } else { j(x[k()]) }"),
        "let [] = f(other()) else [other(other(g()))]; \
         other(h(x); i(); other(j(other(x; k()))))"
    );
}

#[test]
fn code_is_met_in_items_and_generic_arguments() {
    assert_eq!(
        body("fn inner() { f() } a::<{ g() }>::b(x); y.m::<{ h() }>(z); const C: [u8; 1] = [i(); 2];"),
        "f(); a::<>::bother(g())(x); method(y; other(h()); z); other(); other(i(); other())"
    );
}

#[test]
fn attributes_are_met_wherever_they_stand() {
    assert_eq!(
        body("#[a] f(); #[b] unsafe { #![c] }; #[d] x.m(); #[e] let x; #[f] if x { }; \
              #[g] struct S { #[h] x: u8 } match x { #[i] 1 => 2, }; #[j] m!(); S { #[k] x: 1 };"),
        "#[a ] f(); #[b ] #![c ] unsafe {  }; #[d ] method(x); #[e ] let [] = nothing else []; \
         other(#[f ] ; x); #[g ] ; #[h ] ; other(x; #[i ] ; other()); \
         #[j ] ; other(#[k ] ; other())"
    );
}

#[test]
fn the_value_of_an_attribute_is_its_own() {
    assert_eq!(
        body("#[a = f(1)] #[b] g();"),
        "#[a f(other())] #[b ] g()"
    );
}

#[test]
fn the_statements_of_an_unsafe_block_are_met_one_by_one() {
    assert_eq!(
        body("unsafe { f(); let x = 1; fn k() { g() } m!(); h() }"),
        "unsafe { f(); let [] = other() else []; statement(g()); statement(); h() }"
    );
}

#[test]
fn checked_calls_in_a_parsed_body_are_expanded() {
    assert_eq!(
        body("#[safety::checked(A = \"a\")] let v = unsafe { p::f::<u8>(1) };"),
        format!("let [] = checked {{ unsafe {{ p::f::__safety_{}::<>(other()) }} }} else []", H)
    );
    assert_eq!(
        body("g(#[checked(A = \"a\")] f());"),
        format!("g(checked {{ f::__safety_{}() }})", H)
    );
    assert_eq!(
        body("#[a] #[checked(A = \"a\")] #[b] f(1)"),
        format!("checked {{ #[a ] #[b ] f::__safety_{}(other()) }}", H)
    );
}

#[test]
fn a_value_leaves_with_its_attribute() {
    let item = stream("fn main() { #[checked = g(#[checked] h())] f(); }");
    let error = checks(TokenStream::new(), item, Span::call_site()).err().unwrap();
    assert_eq!(texts(&error), vec!["expected parentheses: #[checked(...)]"]);
}

#[test]
fn the_documented_example_is_expanded() {
    let attr = stream(
        "valid_ptr = \"src must be valid for reads\", \
         aligned = \"src must be properly aligned\", \
         initialized = \"src must point to an initialized value\"",
    );
    let item = stream("unsafe fn read<T>(ptr: *const T) -> T {}");
    let (pieces, source) = requires_attribute(attr, item, "lib", Span::call_site()).ok().unwrap();
    assert_eq!(source.item.sig.ident.to_string(), "read");
    let names: Vec<String> = signatures(&pieces);
    assert_eq!(names, vec!["__safety_9fa60d13a8ae33fe", "read"]);
    assert_eq!(
        body(
            "#[safety::checked(valid_ptr = \"a reference\", initialized = \"always\" \
             aligned = \"a reference\")] unsafe { read(&()) };"
        ),
        "checked { unsafe { read::__safety_9fa60d13a8ae33fe(other(other())) } }"
    );
}

/// The names in the signatures of the pieces.
fn signatures(pieces: &[Piece]) -> Vec<String> {
    let mut found = Vec::new();
    for piece in pieces {
        match piece {
            Piece::Signature(ident) => found.push(ident.text.clone()),
            Piece::Body(pieces) | Piece::Braces(pieces, _) => found.append(&mut signatures(pieces)),
            _ => {}
        }
    }
    found
}

#[test]
fn what_is_no_function_is_an_error_of_the_grammar() {
    for text in ["struct S;", "fn f()", "", "fn f() { 1 + }", "fn f() {} fn g() {}"] {
        let said = syn::parse2::<syn::ItemFn>(stream(text)).err().unwrap().to_string();
        let error = checks(stream(""), stream(text), Span::call_site()).err().unwrap();
        assert_eq!(texts(&error), vec![format!("syntax: {}", said)]);
        let error =
            requires_attribute(stream("A"), stream(text), "lib", Span::call_site()).err().unwrap();
        assert_eq!(texts(&error), vec![format!("syntax: {}", said)]);
    }
}

#[test]
fn errors_in_the_arguments_come_before_those_of_the_grammar() {
    let error = checks(stream("A"), stream("struct S;"), Span::call_site()).err().unwrap();
    assert_eq!(texts(&error), vec!["#[safety::checks] takes no arguments"]);
    let error =
        requires_attribute(stream("1"), stream("struct S;"), "lib", Span::call_site()).err().unwrap();
    assert_eq!(texts(&error), vec!["expected identifier"]);
}

/// The part of a line of source that the first message points at.
fn pointed_at(text: &str, error: &Diagnostic) -> String {
    match &error.messages[0] {
        Message::Text { extent, .. } => {
            text[extent.first.start().column..extent.last.end().column].to_string()
        }
        Message::Syntax(_) => panic!("no message of the library"),
    }
}

#[test]
fn errors_point_at_the_syntax_they_are_about() {
    for (block, part) in [
        ("#[checked(A = \"a\")] #[b] x.m(1);", "#[b] x.m(1)"),
        ("#[checked(A = \"a\")] x.m(1);", "x.m(1)"),
        ("#[checked(A = \"a\")] unsafe { f(); g() };", "unsafe { f(); g() }"),
        ("#[checked(A = \"a\")] unsafe { let x = 1; };", "let x = 1;"),
        ("#[checked(A = \"a\")] unsafe { #[b] fn g() {} };", "#[b] fn g() {}"),
        ("#[checked(A = \"a\")] unsafe { 1 + 2 };", "1 + 2"),
        ("#[checked(A = \"a\")] (f)(1);", "(f)"),
        ("#[checked(A = \"a\")] let x: u8;", "let x: u8;"),
        ("#[checked(A = \"a\")] if x { 1 }", "#[checked(A = \"a\")]"),
        ("#[checked(A)] f();", "A"),
        ("#[a::checked] #[safety::checked] f();", "safety::checked"),
        ("#[checked = 1] f();", "="),
    ] {
        let text = format!("fn main() {{ {} }}", block);
        let error = checks(stream(""), stream(&text), Span::call_site()).err().unwrap();
        assert_eq!(pointed_at(&text, &error), part, "{}", block);
    }
}

#[test]
fn errors_about_a_function_point_at_its_parts() {
    for (text, part) in [
        ("fn f() {}", "fn"),
        ("unsafe fn f(&mut self, x: u8) {}", "&mut self"),
        ("unsafe fn f(x: u8, (a, b): (u8, u8)) {}", "(a, b)"),
    ] {
        let error =
            requires_attribute(stream("A = \"a\""), stream(text), "lib", Span::call_site())
                .err()
                .unwrap();
        assert_eq!(pointed_at(text, &error), part);
    }
}

#[test]
fn an_empty_statement_is_no_call() {
    let item = stream("fn main() { #[checked(A = \"a\")] unsafe { ; }; }");
    let error = checks(stream(""), item, Span::call_site()).err().unwrap();
    assert_eq!(
        texts(&error),
        vec!["#[safety::checked] expects a single function call, optionally wrapped in `unsafe { .. }`"]
    );
}

#[test]
fn an_empty_statement_is_placed_at_the_call_site() {
    let here: TokenStream = "  here".parse().unwrap();
    let here = here.into_iter().next().unwrap().span();
    let item = stream("fn main() { #[checked(A = \"a\")] unsafe { ; }; }");
    let error = checks(stream(""), item, here).err().unwrap();
    match &error.messages[0] {
        Message::Text { extent, .. } => {
            assert_eq!(extent.first.start().column, 2);
            assert_eq!(extent.last.end().column, 6);
        }
        Message::Syntax(_) => panic!("no message of the library"),
    }
}

#[test]
fn empty_statements_are_left_alone() {
    assert_eq!(body("; let x = 1;; f();;"), "other(); let [] = other() else []; other(); f(); other()");
}

#[test]
fn the_syntax_of_the_item_comes_with_its_expansion() {
    let item = stream("#[a] pub fn main(x: u8) -> u8 { #![b] f(x); }");
    let (pieces, source) = checks(stream(""), item, Span::call_site()).ok().unwrap();
    assert_eq!(source.item.attrs.len(), 2);
    assert_eq!(source.item.sig.inputs.len(), 1);
    assert_eq!(source.item.block.stmts.len(), 1);
    assert_eq!(source.parts.exprs.len(), 3);
    assert_eq!(statements(&pieces), vec!["f(x)"]);
}
