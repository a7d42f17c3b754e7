use std::str::FromStr;

use glib_properties::generate::{property, Accessor, Builder, BuilderStep, Flag, GenError, ValueType};
use glib_properties::parse::{join_path, ParseError, ParseErrorKind, Path, Properties};
use glib_properties::token::{Delimiter, Token};
use glib_properties::{properties, Error, Expansion};

fn flatten(stream: proc_macro2::TokenStream, out: &mut Vec<Token>) {
    for tree in stream {
        match tree {
            proc_macro2::TokenTree::Group(g) => {
                let d = match g.delimiter() {
                    proc_macro2::Delimiter::Parenthesis => Some(Delimiter::Parenthesis),
                    proc_macro2::Delimiter::Brace => Some(Delimiter::Brace),
                    proc_macro2::Delimiter::Bracket => Some(Delimiter::Bracket),
                    proc_macro2::Delimiter::None => None,
                };
                match d {
                    Some(d) => {
                        out.push(Token::Open(d));
                        flatten(g.stream(), out);
                        out.push(Token::Close(d));
                    }
                    None => flatten(g.stream(), out),
                }
            }
            proc_macro2::TokenTree::Ident(i) => out.push(Token::Ident(i.to_string())),
            proc_macro2::TokenTree::Punct(p) => {
                out.push(Token::Punct(p.as_char(), p.spacing() == proc_macro2::Spacing::Joint))
            }
            proc_macro2::TokenTree::Literal(l) => out.push(Token::Literal(l.to_string())),
        }
    }
}

fn tokens(src: &str) -> Vec<Token> {
    let mut out = Vec::new();
    flatten(proc_macro2::TokenStream::from_str(src).unwrap(), &mut out);
    out
}

fn expand(src: &str) -> Expansion {
    properties(&tokens(src)).unwrap()
}

fn expand_err(src: &str) -> Error {
    properties(&tokens(src)).unwrap_err()
}

fn path_of(p: &Path) -> String {
    join_path(p)
}

fn string_builder(name: &str) -> Builder {
    Builder::Value(ValueType::Str, name.to_string())
}

#[test]
fn test_expansion() {
    let x = expand(
        "#[string] \"name\" => { get { self.name.borrow().clone().to_value() } \
         set { self.name.replace(value.get().unwrap()) } }",
    );
    assert_eq!(x.param_specs.len(), 1);
    assert_eq!(x.param_specs[0].builder, string_builder("name"));
    assert_eq!(x.param_specs[0].flags, vec![Flag::Readwrite]);
    assert_eq!(x.param_specs[0].blurb, None);
    assert!(x.param_specs[0].steps.is_empty());

    let x = expand(
        "#[string] \"implicitly-read-only\" => { get { a() } }, \
         #[string] \"implicitly-write-only\" => { set { b() } }, \
         #[string] \"implicitly-read-write\" => { get { a() } set { b() } }",
    );
    let flags: Vec<Vec<Flag>> = x.param_specs.iter().map(|d| d.flags.clone()).collect();
    assert_eq!(flags, vec![vec![Flag::Readable], vec![Flag::Writable], vec![Flag::Readwrite]]);
    assert_eq!(x.param_specs[1].builder, string_builder("implicitly-write-only"));
    let getter_ids: Vec<usize> = x.getters.iter().map(|a| a.id).collect();
    let setter_ids: Vec<usize> = x.setters.iter().map(|a| a.id).collect();
    assert_eq!(getter_ids, vec![1, 3]);
    assert_eq!(setter_ids, vec![2, 3]);

    let x = expand(
        "#[object(gtk::Button)] \"ok-button\" => { get { a() } \
         set { b(value.get().expect(\"expected gtk::Button\")); } }",
    );
    match &x.param_specs[0].builder {
        Builder::Object(name, ty) => {
            assert_eq!(name, "ok-button");
            assert_eq!(path_of(ty), "gtk::Button");
        }
        other => panic!("unexpected builder {:?}", other),
    }
    assert_eq!(x.param_specs[0].flags, vec![Flag::Readwrite]);

    let x = expand(
        "/// contains the name of this object\n#[string(nick=\"Object Name\")] \"name\" => { get { a() } }",
    );
    assert_eq!(x.param_specs[0].flags, vec![Flag::Readable]);
    assert_eq!(x.param_specs[0].blurb.as_deref(), Some("contains the name of this object"));
    assert_eq!(x.param_specs[0].steps.len(), 1);
    assert_eq!(path_of(&x.param_specs[0].steps[0].key), "nick");
    assert_eq!(x.param_specs[0].steps[0].value, "\"Object Name\"");

    let x = expand("#[string(readable, explicit_notify)] \"name\" => { get { a() } }");
    assert_eq!(x.param_specs[0].flags, vec![Flag::Readable, Flag::ExplicitNotify]);
}

#[test]
fn get_only_is_readable() {
    let x = expand("#[int] \"n\" => { get { 1 } }");
    assert_eq!(x.param_specs[0].flags, vec![Flag::Readable]);
    assert_eq!(x.param_specs[0].builder, Builder::Value(ValueType::Int, "n".to_string()));
}

#[test]
fn set_only_is_writable() {
    let x = expand("#[boolean] \"b\" => { set { f() } }");
    assert_eq!(x.param_specs[0].flags, vec![Flag::Writable]);
}

#[test]
fn get_and_set_keep_explicit_flags_before_readwrite() {
    let x = expand("#[string(construct, readable)] \"s\" => { get { a() } set { b() } }");
    assert_eq!(x.param_specs[0].flags, vec![Flag::Construct, Flag::Readable, Flag::Readwrite]);
}

#[test]
fn repeated_flag_listed_once() {
    let x = expand("#[string(explicit_notify, deprecated, explicit_notify)] \"s\" => { get { a() } }");
    assert_eq!(
        x.param_specs[0].flags,
        vec![Flag::ExplicitNotify, Flag::Deprecated, Flag::Readable]
    );
    let x = expand("#[string(readable, readable)] \"s\" => { get { a() } }");
    assert_eq!(x.param_specs[0].flags, vec![Flag::Readable]);
}

#[test]
fn get_only_marked_writable_conflicts() {
    for flag in ["writable", "readwrite", "construct", "construct_only"] {
        let src = format!("#[string(static_name, {flag})] \"s\" => {{ get {{ a() }} }}");
        match expand_err(&src) {
            Error::Generate(GenError::Conflict { property, flag: f, missing }) => {
                assert_eq!(property, "s");
                assert_eq!(join_path(&f), flag);
                assert_eq!(missing, Accessor::Setter);
            }
            other => panic!("unexpected {:?}", other),
        }
    }
}

#[test]
fn set_only_marked_readable_conflicts() {
    for flag in ["readable", "readwrite"] {
        let src = format!("#[string({flag})] \"s\" => {{ set {{ a() }} }}");
        match expand_err(&src) {
            Error::Generate(GenError::Conflict { missing, flag: f, .. }) => {
                assert_eq!(missing, Accessor::Getter);
                assert_eq!(join_path(&f), flag);
            }
            other => panic!("unexpected {:?}", other),
        }
    }
}

#[test]
fn read_write_never_conflicts() {
    let x = expand("#[string(writable, readable, construct_only)] \"s\" => { get { a() } set { b() } }");
    assert_eq!(
        x.param_specs[0].flags,
        vec![Flag::Writable, Flag::Readable, Flag::ConstructOnly, Flag::Readwrite]
    );
}

#[test]
fn dispatch_keys_follow_declaration_order() {
    let x = expand(
        "#[string] \"a\" => { get { 1 } }; #[string] \"b\" => { set { 2 } } \
         #[int] \"c\" => { get { 3 }, set { 4 }; }",
    );
    assert_eq!(x.param_specs.len(), 3);
    let getter_ids: Vec<usize> = x.getters.iter().map(|a| a.id).collect();
    let setter_ids: Vec<usize> = x.setters.iter().map(|a| a.id).collect();
    assert_eq!(getter_ids, vec![1, 3]);
    assert_eq!(setter_ids, vec![2, 3]);
}

#[test]
fn object_type_declaration() {
    let x = expand("#[object(Foo, construct_only)] \"child\" => { get { a() } set { b() } }");
    match &x.param_specs[0].builder {
        Builder::Object(name, ty) => {
            assert_eq!(name, "child");
            assert_eq!(path_of(ty), "Foo");
        }
        other => panic!("unexpected builder {:?}", other),
    }
    assert_eq!(x.param_specs[0].flags, vec![Flag::ConstructOnly, Flag::Readwrite]);
}

#[test]
fn object_without_type_rejected() {
    assert_eq!(
        expand_err("#[object] \"child\" => { get { a() } }"),
        Error::Generate(GenError::MissingObjectType)
    );
}

#[test]
fn object_with_key_value_first_rejected() {
    assert_eq!(
        expand_err("#[object(nick = \"x\")] \"child\" => { get { a() } }"),
        Error::Generate(GenError::ObjectTypeNotPath)
    );
}

#[test]
fn documentation_lines_joined() {
    let x = expand("///   first line\n/// second line  \n#[string] \"s\" => { get { a() } }");
    assert_eq!(x.param_specs[0].blurb.as_deref(), Some("first line\n second line"));
}

#[test]
fn no_documentation_no_blurb() {
    let x = expand("#[string] \"s\" => { get { a() } }");
    assert_eq!(x.param_specs[0].blurb, None);
}

#[test]
fn scenario_read_write_string() {
    let t = tokens("#[string] \"name\" => { get {E1} set {E2} }");
    let x = properties(&t).unwrap();
    assert_eq!(x.param_specs[0].builder, string_builder("name"));
    assert_eq!(x.param_specs[0].flags, vec![Flag::Readwrite]);
    assert_eq!(x.param_specs[0].blurb, None);
    assert_eq!(x.getters.len(), 1);
    assert_eq!(x.setters.len(), 1);
    assert_eq!(x.getters[0].id, 1);
    assert_eq!(x.setters[0].id, 1);
    let g = x.getters[0].body;
    assert_eq!(t[g.open], Token::Open(Delimiter::Brace));
    assert_eq!(t[g.open + 1], Token::Ident("E1".to_string()));
    assert_eq!(g.close, g.open + 2);
    let s = x.setters[0].body;
    assert_eq!(t[s.open + 1], Token::Ident("E2".to_string()));
}

#[test]
fn scenario_explicit_readable_notify() {
    let x = expand("#[string(readable, explicit_notify)] \"name\" => { get {E1} }");
    assert_eq!(x.param_specs[0].flags, vec![Flag::Readable, Flag::ExplicitNotify]);
    assert_eq!(x.getters.len(), 1);
    assert!(x.setters.is_empty());
}

#[test]
fn scenario_two_properties() {
    let x = expand("#[string] \"a\" => { get {E1} } #[string] \"b\" => { set {E2} }");
    assert_eq!(x.getters.len(), 1);
    assert_eq!(x.getters[0].id, 1);
    assert_eq!(x.setters.len(), 1);
    assert_eq!(x.setters[0].id, 2);
}

#[test]
fn builder_steps_in_order() {
    let x = expand("#[int(minimum = -1, readable, maximum = 10, nick = \"N\")] \"n\" => { get { 0 } }");
    let steps: Vec<(String, String)> = x.param_specs[0]
        .steps
        .iter()
        .map(|BuilderStep { key, value }| (join_path(key), value.clone()))
        .collect();
    assert_eq!(
        steps,
        vec![
            ("minimum".to_string(), "-1".to_string()),
            ("maximum".to_string(), "10".to_string()),
            ("nick".to_string(), "\"N\"".to_string()),
        ]
    );
    assert_eq!(x.param_specs[0].flags, vec![Flag::Readable]);
}

#[test]
fn escaped_name_is_resolved() {
    let x = expand("#[string] \"a\\\"b\" => { get { 0 } }");
    assert_eq!(x.param_specs[0].builder, string_builder("a\"b"));
}

#[test]
fn every_value_type_has_its_builder() {
    let cases = [
        ("boolean", "ParamSpecBoolean"),
        ("char", "ParamSpecChar"),
        ("double", "ParamSpecDouble"),
        ("float", "ParamSpecFloat"),
        ("int", "ParamSpecInt"),
        ("int64", "ParamSpecInt64"),
        ("long", "ParamSpecLong"),
        ("string", "ParamSpecString"),
    ];
    for (tag, builder) in cases {
        let x = expand(&format!("#[{tag}] \"p\" => {{ get {{ 0 }} }}"));
        match &x.param_specs[0].builder {
            Builder::Value(t, name) => {
                assert_eq!(t.builder_type(), builder);
                assert_eq!(name, "p");
            }
            other => panic!("unexpected builder {:?}", other),
        }
    }
}

#[test]
fn flag_names_and_constants() {
    let names = [
        ("readable", "READABLE"),
        ("writable", "WRITABLE"),
        ("readwrite", "READWRITE"),
        ("construct", "CONSTRUCT"),
        ("construct_only", "CONSTRUCT_ONLY"),
        ("lax_validation", "LAX_VALIDATION"),
        ("static_name", "STATIC_NAME"),
        ("private", "PRIVATE"),
        ("static_nick", "STATIC_NICK"),
        ("static_blurb", "STATIC_BLURB"),
        ("explicit_notify", "EXPLICIT_NOTIFY"),
        ("deprecated", "DEPRECATED"),
    ];
    for (name, constant) in names {
        let f = Flag::from_name(&name.to_string()).unwrap();
        assert_eq!(f.constant_name(), constant);
    }
    assert_eq!(Flag::from_name(&"READABLE".to_string()), None);
}

#[test]
fn unsupported_flag_rejected() {
    match expand_err("#[string(shiny)] \"s\" => { get { a() } }") {
        Error::Generate(GenError::UnsupportedFlag(p)) => assert_eq!(join_path(&p), "shiny"),
        other => panic!("unexpected {:?}", other),
    }
    match expand_err("#[string(glib::readable)] \"s\" => { get { a() } }") {
        Error::Generate(GenError::UnsupportedFlag(p)) => assert_eq!(join_path(&p), "glib::readable"),
        other => panic!("unexpected {:?}", other),
    }
}

#[test]
fn unknown_type_rejected() {
    assert_eq!(
        expand_err("#[uint] \"s\" => { get { a() } }"),
        Error::Generate(GenError::UnimplementedType("uint".to_string()))
    );
}

#[test]
fn block_errors() {
    assert_eq!(
        expand_err("#[string] \"s\" => { get { a() } fetch { b() } }"),
        Error::Generate(GenError::UnsupportedBlock("fetch".to_string()))
    );
    assert_eq!(
        expand_err("#[string] \"s\" => { get { a() } get { b() } }"),
        Error::Generate(GenError::DuplicateGet)
    );
    assert_eq!(
        expand_err("#[string] \"s\" => { set { a() } set { b() } }"),
        Error::Generate(GenError::DuplicateSet)
    );
    assert_eq!(expand_err("#[string] \"s\" => { }"), Error::Generate(GenError::MissingBlock));
}

#[test]
fn generation_stops_at_first_faulty_property() {
    assert_eq!(
        expand_err("#[string] \"a\" => { get { 1 } } #[string] \"b\" => { }"),
        Error::Generate(GenError::MissingBlock)
    );
}

fn parse_err(t: &Vec<Token>) -> ParseError {
    match properties(t) {
        Err(Error::Parse(e)) => e,
        other => panic!("unexpected {:?}", other),
    }
}

#[test]
fn parse_errors() {
    let e = parse_err(&tokens("\"s\" => { get { a() } }"));
    assert_eq!(e, ParseError { kind: ParseErrorKind::MissingDeclaration, at: 0 });
    let e = parse_err(&tokens("#[string] #[int] \"s\" => { get { a() } }"));
    assert_eq!(e, ParseError { kind: ParseErrorKind::DuplicateDeclaration, at: 6 });
    let e = parse_err(&tokens("#[string] name => { get { a() } }"));
    assert_eq!(e, ParseError { kind: ParseErrorKind::ExpectedString, at: 4 });
    let e = parse_err(&tokens("#[string] \"s\" = { get { a() } }"));
    assert_eq!(e, ParseError { kind: ParseErrorKind::ExpectedArrow, at: 5 });
    let e = parse_err(&tokens("#[string] \"s\" => ( get { a() } )"));
    assert_eq!(e, ParseError { kind: ParseErrorKind::ExpectedBrace, at: 7 });
    let e = parse_err(&tokens("#[string = 1] \"s\" => { get { a() } }"));
    assert_eq!(e, ParseError { kind: ParseErrorKind::ExpectedParen, at: 3 });
    let e = parse_err(&tokens("#[string(readable) x] \"s\" => { get { a() } }"));
    assert_eq!(e, ParseError { kind: ParseErrorKind::UnexpectedToken, at: 6 });
    let e = parse_err(&tokens("#[string(readable x)] \"s\" => { get { a() } }"));
    assert_eq!(e, ParseError { kind: ParseErrorKind::UnexpectedToken, at: 5 });
    let e = parse_err(&tokens("#[string(nick = )] \"s\" => { get { a() } }"));
    assert_eq!(e, ParseError { kind: ParseErrorKind::ExpectedLiteral, at: 6 });
    let e = parse_err(&tokens("#[string(readable,)] \"s\" => { get { a() } }"));
    assert_eq!(e, ParseError { kind: ParseErrorKind::ExpectedIdent, at: 6 });
    let e = parse_err(&tokens("#[doc(\"x\")] #[string] \"s\" => { get { a() } }"));
    assert_eq!(e, ParseError { kind: ParseErrorKind::ExpectedEq, at: 3 });
    let e = parse_err(&tokens("#[doc = 1] #[string] \"s\" => { get { a() } }"));
    assert_eq!(e, ParseError { kind: ParseErrorKind::ExpectedString, at: 4 });
    let e = parse_err(&tokens("#[string] \"s\" => { { a() } }"));
    assert_eq!(e, ParseError { kind: ParseErrorKind::ExpectedIdent, at: 8 });
    let e = parse_err(&tokens("#[string] \"s\" => { get a }"));
    assert_eq!(e, ParseError { kind: ParseErrorKind::ExpectedBrace, at: 9 });
}

#[test]
fn hand_built_token_errors() {
    let t = vec![Token::Punct('#', false), Token::Ident("string".to_string())];
    assert_eq!(parse_err(&t), ParseError { kind: ParseErrorKind::ExpectedBracket, at: 1 });
    let t = vec![
        Token::Punct('#', false),
        Token::Open(Delimiter::Bracket),
        Token::Ident("string".to_string()),
    ];
    assert_eq!(parse_err(&t), ParseError { kind: ParseErrorKind::Unbalanced, at: 1 });
}

#[test]
fn empty_input_expands_to_nothing() {
    let x = expand("");
    assert!(x.param_specs.is_empty());
    assert!(x.getters.is_empty());
    assert!(x.setters.is_empty());
}

#[test]
fn separators_are_optional() {
    let x = expand("#[string] \"a\" => { get { 1 } }, #[string] \"b\" => { get { 2 } }; #[string] \"c\" => { get { 3 } },");
    assert_eq!(x.param_specs.len(), 3);
    let t = tokens("#[string] \"a\" => { get { 1 } }");
    let parsed = Properties::parse(&t).unwrap();
    assert_eq!(parsed.0 .0.len(), 1);
    assert_eq!(parsed.0 .0[0].name, "a");
    assert_eq!(parsed.0 .0[0].name_at, 4);
}

#[test]
fn generate_single_property() {
    let t = tokens("#[string] \"a\" => { get { 1 } }");
    let parsed = Properties::parse(&t).unwrap();
    let prop = parsed.0 .0.into_iter().next().unwrap();
    let (d, g, s) = property(7, prop).unwrap();
    assert_eq!(d.flags, vec![Flag::Readable]);
    assert_eq!(g.unwrap().id, 7);
    assert!(s.is_none());
}

#[test]
fn c_string_literal_is_not_a_name() {
    let e = parse_err(&tokens("#[string] c\"name\" => { get { a() } }"));
    assert_eq!(e, ParseError { kind: ParseErrorKind::ExpectedString, at: 4 });
    let e = parse_err(&tokens("#[doc = c\"x\"] #[string] \"s\" => { get { a() } }"));
    assert_eq!(e, ParseError { kind: ParseErrorKind::ExpectedString, at: 4 });
    let t = vec![
        Token::Punct('#', false),
        Token::Open(Delimiter::Bracket),
        Token::Ident("string".to_string()),
        Token::Close(Delimiter::Bracket),
        Token::Literal("c\"n\"".to_string()),
    ];
    assert_eq!(parse_err(&t), ParseError { kind: ParseErrorKind::ExpectedString, at: 4 });
}

#[test]
fn raw_string_name_is_resolved() {
    let x = expand("#[string] r\"raw\\name\" => { get { 0 } }");
    assert_eq!(x.param_specs[0].builder, string_builder("raw\\name"));
}

#[test]
fn leading_path_separator_accepted() {
    let x = expand("#[object(::gtk::Button)] \"b\" => { get { a() } }");
    match &x.param_specs[0].builder {
        Builder::Object(_, ty) => {
            assert_eq!(path_of(ty), "gtk::Button");
            assert_eq!(ty.at, 6);
        }
        other => panic!("unexpected builder {:?}", other),
    }
    let e = parse_err(&tokens("#[object(::)] \"b\" => { get { a() } }"));
    assert_eq!(e, ParseError { kind: ParseErrorKind::ExpectedIdent, at: 6 });
}
