//! The grammar of a property list, and the parsed form of its items.
use vstd::prelude::*;
use crate::text::{is_str, join_strings, join_with, views};
use vstd::string::*;
use crate::token::{
    close_from, group_close, is_joint_punct, is_open, is_punct, joint_punct_at, open_at, punct_at, Delimiter, Token,
};

verus! {

/// A `::`-separated identifier path, and the token index of its first
/// segment.
#[derive(Clone, Debug, PartialEq, Eq)]
pub struct Path {
    pub segments: Vec<String>,
    pub at: usize,
}

/// The segments of a path, as text.
pub open spec fn path_segments(p: Path) -> Seq<Seq<char>> {
    views(p.segments@)
}

/// A path written out with `::` between its segments.
pub open spec fn path_text(p: Path) -> Seq<char> {
    join_with(path_segments(p), "::"@)
}

/// Writes out `path` with `::` between its segments.
pub fn join_path(path: &Path) -> (r: String)
    ensures
        r@ == path_text(*path),
{
    join_strings(&path.segments, "::")
}

/// One declaration argument: a bare path (a flag, or the element type of
/// an object property), or `key = literal`, whose literal is kept as written.
#[derive(Clone, Debug, PartialEq, Eq)]
pub enum DeclarationArg {
    Tag(Path),
    KeyVal(Path, String),
}

/// The parenthesised argument list of a declaration.
#[derive(Clone, Debug, PartialEq, Eq)]
pub struct DeclarationArgs {
    pub args: Vec<DeclarationArg>,
}

/// The type attribute of a property: its tag (a joined path) and its
/// arguments, if it has a parenthesised list.
#[derive(Clone, Debug, PartialEq, Eq)]
pub struct Declaration {
    pub tag: String,
    pub tag_at: usize,
    pub args: Option<DeclarationArgs>,
}

/// The attributes in front of a property's name: its documentation lines
/// and its one declaration.
#[derive(Clone, Debug, PartialEq, Eq)]
pub struct Head {
    pub doc: Vec<String>,
    pub declaration: Declaration,
}

/// A brace-delimited code fragment, by the token indices of its opening
/// and closing brace. Its contents are never inspected.
#[derive(Clone, Copy, Debug, PartialEq, Eq, Structural)]
pub struct Fragment {
    pub open: usize,
    pub close: usize,
}

/// A named accessor block (`get { .. }` or `set { .. }`).
#[derive(Clone, Debug, PartialEq, Eq)]
pub struct Block {
    pub name: String,
    pub at: usize,
    pub block: Fragment,
}

/// A list whose items may be followed by `,` or `;`.
#[derive(Clone, Debug, PartialEq, Eq)]
pub struct LooselySeparated<T>(pub Vec<T>);

/// One declared property: head, quoted name and accessor blocks.
#[derive(Clone, Debug, PartialEq, Eq)]
pub struct Property {
    pub head: Head,
    pub name: String,
    pub name_at: usize,
    pub blocks: LooselySeparated<Block>,
}

/// A whole property list.
#[derive(Clone, Debug, PartialEq, Eq)]
pub struct Properties(pub LooselySeparated<Property>);

/// What the parser expected and did not find.
#[derive(Clone, Copy, Debug, PartialEq, Eq, Structural)]
pub enum ParseErrorKind {
    ExpectedIdent,
    ExpectedLiteral,
    ExpectedString,
    ExpectedEq,
    ExpectedArrow,
    ExpectedBrace,
    ExpectedBracket,
    ExpectedParen,
    /// A group that is never closed.
    Unbalanced,
    /// A token left over where a group's contents should have ended.
    UnexpectedToken,
    /// A second declaration attribute on one property.
    DuplicateDeclaration,
    /// A property with no declaration attribute.
    MissingDeclaration,
}

/// A parse failure at a token index (the length of the input for its end).
#[derive(Clone, Copy, Debug, PartialEq, Eq, Structural)]
pub struct ParseError {
    pub kind: ParseErrorKind,
    pub at: usize,
}

/// The failure `kind` at token `i`.
pub open spec fn fail<V>(kind: ParseErrorKind, i: int) -> Result<V, ParseError> {
    Err(ParseError { kind, at: i as usize })
}

/// The value of a string literal written as `text`, if it is one.
pub uninterp spec fn str_literal_value(text: Seq<char>) -> Option<Seq<char>>;

/// The view of an optional string.
pub open spec fn opt_view(o: Option<String>) -> Option<Seq<char>> {
    match o {
        Some(s) => Some(s@),
        None => None,
    }
}

/// Whether `text` begins as a plain (`"`) or raw (`r`) string literal does.
pub open spec fn string_start(text: Seq<char>) -> bool {
    text.len() > 0 && (text[0] == '"' || text[0] == 'r')
}

/// Relies on syn's `LitStr` parser, which accepts exactly one string
/// literal token, and on `LitStr::value`, which resolves its escapes.
/// Text that starts otherwise is kept out: syn's literal classifier
/// panics on a literal kind it does not know (a C string, `c"x"`).
#[verifier::external_body]
fn string_literal_value(text: &String) -> (r: Option<String>)
    requires
        string_start(text@),
    ensures
        opt_view(r) == str_literal_value(text@),
{
    match syn::parse_str::<syn::LitStr>(text) {
        Ok(lit) => Some(lit.value()),
        Err(_) => None,
    }
}

/// A path as plain values.
pub struct PathView {
    pub segments: Seq<Seq<char>>,
    pub at: usize,
}

impl View for Path {
    type V = PathView;

    open spec fn view(&self) -> PathView {
        PathView { segments: views(self.segments@), at: self.at }
    }
}

/// The path that starts at token `i`: an optional leading `::`, an
/// identifier, then `::` and an identifier any number of times.
pub open spec fn path_spec(t: Seq<Token>, i: int, end: int) -> Result<(PathView, int), ParseError> {
    path_from(t, path_start(t, i, end), end)
}

/// Where a path's first segment stands: past a leading `::`, if any.
pub open spec fn path_start(t: Seq<Token>, i: int, end: int) -> int {
    if is_joint_punct(t, i, end, ':') && is_punct(t, i + 1, end, ':') {
        i + 2
    } else {
        i
    }
}

/// The path whose first segment is token `i`.
pub open spec fn path_from(t: Seq<Token>, i: int, end: int) -> Result<(PathView, int), ParseError> {
    if 0 <= i < end && t[i] is Ident {
        path_rest(t, i + 1, end, seq![t[i]->Ident_0@], i)
    } else {
        fail(ParseErrorKind::ExpectedIdent, i)
    }
}

/// The rest of a path from token `j`, after the segments `segs`.
pub open spec fn path_rest(t: Seq<Token>, j: int, end: int, segs: Seq<Seq<char>>, at: int) -> Result<(PathView, int), ParseError>
    decreases end - j,
{
    if is_joint_punct(t, j, end, ':') && is_punct(t, j + 1, end, ':') {
        if j + 2 < end && t[j + 2] is Ident {
            path_rest(t, j + 3, end, segs.push(t[j + 2]->Ident_0@), at)
        } else {
            fail(ParseErrorKind::ExpectedIdent, j + 2)
        }
    } else {
        Ok((PathView { segments: segs, at: at as usize }, j))
    }
}

/// A parse result as plain values.
pub open spec fn res_view<A: View>(r: Result<(A, usize), ParseError>) -> Result<(A::V, int), ParseError> {
    match r {
        Ok((a, j)) => Ok((a@, j as int)),
        Err(e) => Err(e),
    }
}

/// Parses the path that starts at token `i`.
fn parse_path(t: &Vec<Token>, i: usize, end: usize) -> (r: Result<(Path, usize), ParseError>)
    requires
        end <= t@.len(),
    ensures
        res_view(r) == path_spec(t@, i as int, end as int),
        r matches Ok((_, j)) ==> i < j <= end,
{
    if joint_punct_at(t, i, end, ':') && punct_at(t, i + 1, end, ':') {
        parse_path_from(t, i + 2, end)
    } else {
        parse_path_from(t, i, end)
    }
}

/// Parses the path whose first segment is token `i`.
fn parse_path_from(t: &Vec<Token>, i: usize, end: usize) -> (r: Result<(Path, usize), ParseError>)
    requires
        end <= t@.len(),
    ensures
        res_view(r) == path_from(t@, i as int, end as int),
        r matches Ok((_, j)) ==> i < j <= end,
{
    let first = if i < end {
        match &t[i] {
            Token::Ident(s) => s.clone(),
            _ => return Err(ParseError { kind: ParseErrorKind::ExpectedIdent, at: i }),
        }
    } else {
        return Err(ParseError { kind: ParseErrorKind::ExpectedIdent, at: i });
    };
    let mut segments: Vec<String> = Vec::new();
    segments.push(first);
    assert(views(segments@) =~= seq![t@[i as int]->Ident_0@]);
    let mut j: usize = i + 1;
    while joint_punct_at(t, j, end, ':') && punct_at(t, j + 1, end, ':')
        invariant
            i < j <= end,
            end <= t@.len(),
            path_from(t@, i as int, end as int) == path_rest(t@, j as int, end as int, views(segments@), i as int),
        decreases end - j,
    {
        let ghost before = segments@;
        if j + 2 < end {
            match &t[j + 2] {
                Token::Ident(s) => segments.push(s.clone()),
                _ => return Err(ParseError { kind: ParseErrorKind::ExpectedIdent, at: j + 2 }),
            }
        } else {
            return Err(ParseError { kind: ParseErrorKind::ExpectedIdent, at: j + 2 });
        }
        proof {
            assert(views(segments@) =~= views(before).push(t@[j + 2]->Ident_0@));
        }
        j = j + 3;
    }
    Ok((Path { segments, at: i }, j))
}

/// A declaration argument as plain values.
pub enum ArgView {
    Tag(PathView),
    KeyVal(PathView, Seq<char>),
}

impl View for DeclarationArg {
    type V = ArgView;

    open spec fn view(&self) -> ArgView {
        match self {
            DeclarationArg::Tag(p) => ArgView::Tag(p@),
            DeclarationArg::KeyVal(k, v) => ArgView::KeyVal(k@, v@),
        }
    }
}

/// The views of a sequence of declaration arguments.
pub open spec fn arg_views(v: Seq<DeclarationArg>) -> Seq<ArgView> {
    v.map_values(|a: DeclarationArg| a@)
}

/// Whether `c` is a decimal digit.
pub open spec fn is_digit(c: char) -> bool {
    '0' <= c && c <= '9'
}

/// The literal that starts at token `i`, as written: a literal token,
/// `true` or `false`, or `-` before a numeric literal.
pub open spec fn literal_spec(t: Seq<Token>, i: int, end: int) -> Result<(Seq<char>, int), ParseError> {
    if 0 <= i < end && t[i] is Literal {
        Ok((t[i]->Literal_0@, i + 1))
    } else if 0 <= i < end && (t[i] matches Token::Ident(s) && (s@ == "true"@ || s@ == "false"@)) {
        Ok((t[i]->Ident_0@, i + 1))
    } else if is_punct(t, i, end, '-') && i + 1 < end && (t[i + 1] matches Token::Literal(s) && s@.len() > 0
        && is_digit(s@[0])) {
        Ok((seq!['-'] + t[i + 1]->Literal_0@, i + 2))
    } else {
        fail(ParseErrorKind::ExpectedLiteral, i)
    }
}

/// The declaration argument that starts at token `i`: a path, then
/// `= literal` if an `=` follows.
pub open spec fn arg_spec(t: Seq<Token>, i: int, end: int) -> Result<(ArgView, int), ParseError> {
    match path_spec(t, i, end) {
        Err(e) => Err(e),
        Ok((p, j)) => if is_punct(t, j, end, '=') {
            match literal_spec(t, j + 1, end) {
                Err(e) => Err(e),
                Ok((v, k)) => Ok((ArgView::KeyVal(p, v), k)),
            }
        } else {
            Ok((ArgView::Tag(p), j))
        },
    }
}

/// The arguments from token `j` on, after `acc`: each further one follows
/// a comma.
pub open spec fn args_rest(t: Seq<Token>, j: int, end: int, acc: Seq<ArgView>) -> Result<(Seq<ArgView>, int), ParseError>
    decreases end - j
    via args_rest_decreases
{
    if is_punct(t, j, end, ',') {
        match arg_spec(t, j + 1, end) {
            Err(e) => Err(e),
            Ok((a, k)) => args_rest(t, k, end, acc.push(a)),
        }
    } else {
        Ok((acc, j))
    }
}

/// A path, and so an argument, takes at least one token.
proof fn lemma_path_advances(t: Seq<Token>, j: int, end: int, segs: Seq<Seq<char>>, at: int)
    requires
        j <= end,
    ensures
        path_rest(t, j, end, segs, at) matches Ok((_, k)) ==> j <= k <= end,
    decreases end - j,
{
    if is_joint_punct(t, j, end, ':') && is_punct(t, j + 1, end, ':') && j + 2 < end && t[j + 2] is Ident {
        lemma_path_advances(t, j + 3, end, segs.push(t[j + 2]->Ident_0@), at);
    }
}

proof fn lemma_arg_advances(t: Seq<Token>, i: int, end: int)
    ensures
        arg_spec(t, i, end) matches Ok((_, k)) ==> i < k <= end,
{
    let s = path_start(t, i, end);
    if 0 <= s < end && t[s] is Ident {
        lemma_path_advances(t, s + 1, end, seq![t[s]->Ident_0@], s);
    }
}

#[via_fn]
proof fn args_rest_decreases(t: Seq<Token>, j: int, end: int, acc: Seq<ArgView>) {
    lemma_arg_advances(t, j + 1, end);
}

/// Parses the literal that starts at token `i`, keeping it as written.
fn parse_literal(t: &Vec<Token>, i: usize, end: usize) -> (r: Result<(String, usize), ParseError>)
    requires
        end <= t@.len(),
    ensures
        match r {
            Ok((v, j)) => literal_spec(t@, i as int, end as int) == Ok::<(Seq<char>, int), ParseError>((v@, j as int)),
            Err(e) => literal_spec(t@, i as int, end as int) == Err::<(Seq<char>, int), ParseError>(e),
        },
        r matches Ok((_, j)) ==> i < j <= end,
{
    if i < end {
        match &t[i] {
            Token::Literal(s) => return Ok((s.clone(), i + 1)),
            Token::Ident(s) => {
                if is_str(s, "true") || is_str(s, "false") {
                    return Ok((s.clone(), i + 1));
                }
            },
            Token::Punct(c, _) => {
                if *c == '-' && i + 1 < end {
                    match &t[i + 1] {
                        Token::Literal(s) => {
                            if starts_with_digit(s) {
                                let mut v = String::from_str("-");
                                proof {
                                    reveal_strlit("-");
                                }
                                v.append(s.as_str());
                                assert(v@ == seq!['-'] + t@[i + 1]->Literal_0@);
                                assert(is_punct(t@, i as int, end as int, '-'));
                                return Ok((v, i + 2));
                            }
                        },
                        _ => {},
                    }
                }
            },
            _ => {},
        }
    }
    Err(ParseError { kind: ParseErrorKind::ExpectedLiteral, at: i })
}

/// The first character of `s`, if any.
fn first_char(s: &String) -> (r: Option<char>)
    ensures
        r == (if s@.len() > 0 { Some(s@[0]) } else { None::<char> }),
{
    let mut chars = s.as_str().chars();
    chars.next()
}

/// Whether `s` begins with a decimal digit.
fn starts_with_digit(s: &String) -> (r: bool)
    ensures
        r == (s@.len() > 0 && is_digit(s@[0])),
{
    match first_char(s) {
        Some(c) => '0' <= c && c <= '9',
        None => false,
    }
}

/// The value of the string literal written as `text`, or `None` if it is
/// not one.
fn string_value(text: &String) -> (r: Option<String>)
    ensures
        opt_view(r) == (if string_start(text@) { str_literal_value(text@) } else { None }),
{
    match first_char(text) {
        Some(c) => {
            if c == '"' || c == 'r' {
                string_literal_value(text)
            } else {
                None
            }
        },
        None => None,
    }
}

/// Parses the declaration argument that starts at token `i`.
fn parse_arg(t: &Vec<Token>, i: usize, end: usize) -> (r: Result<(DeclarationArg, usize), ParseError>)
    requires
        end <= t@.len(),
    ensures
        res_view(r) == arg_spec(t@, i as int, end as int),
        r matches Ok((_, j)) ==> i < j <= end,
{
    let (path, j) = match parse_path(t, i, end) {
        Err(e) => return Err(e),
        Ok(pj) => pj,
    };
    if punct_at(t, j, end, '=') {
        match parse_literal(t, j + 1, end) {
            Err(e) => Err(e),
            Ok((v, k)) => Ok((DeclarationArg::KeyVal(path, v), k)),
        }
    } else {
        Ok((DeclarationArg::Tag(path), j))
    }
}

/// A non-empty list of arguments separated by commas, from token `i` on.
pub open spec fn arg_list_spec(t: Seq<Token>, i: int, end: int) -> Result<(Seq<ArgView>, int), ParseError> {
    match arg_spec(t, i, end) {
        Ok((a, k)) => args_rest(t, k, end, seq![a]),
        Err(e) => Err(e),
    }
}

/// Parses arguments separated by commas, from token `i` on.
fn parse_args(t: &Vec<Token>, i: usize, end: usize) -> (r: Result<(Vec<DeclarationArg>, usize), ParseError>)
    requires
        end <= t@.len(),
    ensures
        match r {
            Ok((v, j)) => arg_list_spec(t@, i as int, end as int) == Ok::<(Seq<ArgView>, int), ParseError>(
                (arg_views(v@), j as int),
            ) && i < j <= end,
            Err(e) => arg_list_spec(t@, i as int, end as int) == Err::<(Seq<ArgView>, int), ParseError>(e),
        },
{
    let mut args: Vec<DeclarationArg> = Vec::new();
    let (first, mut j) = match parse_arg(t, i, end) {
        Err(e) => return Err(e),
        Ok(aj) => aj,
    };
    args.push(first);
    assert(arg_views(args@) =~= seq![first@]);
    let ghost whole = args_rest(t@, j as int, end as int, arg_views(args@));
    assert(whole == arg_list_spec(t@, i as int, end as int));
    while punct_at(t, j, end, ',')
        invariant
            i < j <= end,
            end <= t@.len(),
            whole == args_rest(t@, j as int, end as int, arg_views(args@)),
            whole == arg_list_spec(t@, i as int, end as int),
        decreases end - j,
    {
        let ghost before = args@;
        match parse_arg(t, j + 1, end) {
            Err(e) => return Err(e),
            Ok((a, k)) => {
                args.push(a);
                j = k;
            },
        }
        proof {
            assert(arg_views(args@) =~= arg_views(before).push(args@.last()@));
        }
    }
    Ok((args, j))
}

/// A path's text, `::` between its segments.
pub open spec fn path_view_text(p: PathView) -> Seq<char> {
    join_with(p.segments, "::"@)
}

/// The closing token found by `close_from` lies between where the search
/// began and `end`.
pub proof fn lemma_close_bounds(t: Seq<Token>, j: int, end: int, depth: nat)
    ensures
        close_from(t, j, end, depth) matches Some(c) ==> j <= c < end,
    decreases end - j,
{
    if 0 <= j < end && depth > 0 {
        match t[j] {
            Token::Open(_) => lemma_close_bounds(t, j + 1, end, depth + 1),
            Token::Close(_) => if depth != 1 {
                lemma_close_bounds(t, j + 1, end, (depth - 1) as nat);
            },
            _ => lemma_close_bounds(t, j + 1, end, depth),
        }
    }
}

/// An attribute: its path, and the token range of what follows the path
/// inside the brackets (from `rest` up to the closing bracket `close`).
pub struct Attribute {
    pub path: Path,
    pub rest: usize,
    pub close: usize,
}

/// An attribute as plain values.
pub struct AttrView {
    pub path: PathView,
    pub rest: int,
    pub close: int,
}

impl View for Attribute {
    type V = AttrView;

    open spec fn view(&self) -> AttrView {
        AttrView { path: self.path@, rest: self.rest as int, close: self.close as int }
    }
}

/// The attribute whose `#` is token `i`: a bracketed group that starts
/// with a path.
pub open spec fn attr_spec(t: Seq<Token>, i: int, end: int) -> Result<(AttrView, int), ParseError> {
    if !is_open(t, i + 1, end, Delimiter::Bracket) {
        fail(ParseErrorKind::ExpectedBracket, i + 1)
    } else {
        match close_from(t, i + 2, end, 1) {
            None => fail(ParseErrorKind::Unbalanced, i + 1),
            Some(c) => match path_spec(t, i + 2, c) {
                Err(e) => Err(e),
                Ok((p, j)) => Ok((AttrView { path: p, rest: j, close: c }, c + 1)),
            },
        }
    }
}

/// The attributes from token `j` on, after `acc`.
pub open spec fn attrs_rest(t: Seq<Token>, j: int, end: int, acc: Seq<AttrView>) -> Result<(Seq<AttrView>, int), ParseError>
    decreases end - j
    via attrs_rest_decreases
{
    if is_punct(t, j, end, '#') {
        match attr_spec(t, j, end) {
            Err(e) => Err(e),
            Ok((a, k)) => attrs_rest(t, k, end, acc.push(a)),
        }
    } else {
        Ok((acc, j))
    }
}

#[via_fn]
proof fn attrs_rest_decreases(t: Seq<Token>, j: int, end: int, acc: Seq<AttrView>) {
    lemma_close_bounds(t, j + 2, end, 1);
}

/// The value of a documentation attribute: `= "text"` and nothing more.
pub open spec fn doc_spec(t: Seq<Token>, a: AttrView) -> Result<Seq<char>, ParseError> {
    if !is_punct(t, a.rest, a.close, '=') {
        fail(ParseErrorKind::ExpectedEq, a.rest)
    } else if !(a.rest + 1 < a.close && (t[a.rest + 1] matches Token::Literal(s) && string_start(s@)
        && str_literal_value(s@) is Some)) {
        fail(ParseErrorKind::ExpectedString, a.rest + 1)
    } else if a.rest + 2 < a.close {
        fail(ParseErrorKind::UnexpectedToken, a.rest + 2)
    } else {
        Ok(str_literal_value(t[a.rest + 1]->Literal_0@)->Some_0)
    }
}

/// The arguments of a declaration attribute: none if nothing follows its
/// path, else one parenthesised, non-empty, comma-separated list and
/// nothing more.
pub open spec fn decl_args_spec(t: Seq<Token>, a: AttrView) -> Result<Option<Seq<ArgView>>, ParseError> {
    if a.rest >= a.close {
        Ok(None)
    } else if !is_open(t, a.rest, a.close, Delimiter::Parenthesis) {
        fail(ParseErrorKind::ExpectedParen, a.rest)
    } else {
        match close_from(t, a.rest + 1, a.close, 1) {
            None => fail(ParseErrorKind::Unbalanced, a.rest),
            Some(c) => match arg_list_spec(t, a.rest + 1, c) {
                Err(e) => Err(e),
                Ok((args, k)) => if k < c {
                    fail(ParseErrorKind::UnexpectedToken, k)
                } else if c + 1 < a.close {
                    fail(ParseErrorKind::UnexpectedToken, c + 1)
                } else {
                    Ok(Some(args))
                },
            },
        }
    }
}

/// A declaration as plain values.
pub struct DeclarationView {
    pub tag: Seq<char>,
    pub tag_at: usize,
    pub args: Option<Seq<ArgView>>,
}

impl View for Declaration {
    type V = DeclarationView;

    open spec fn view(&self) -> DeclarationView {
        DeclarationView {
            tag: self.tag@,
            tag_at: self.tag_at,
            args: match self.args {
                Some(a) => Some(arg_views(a.args@)),
                None => None,
            },
        }
    }
}

/// A head as plain values.
pub struct HeadView {
    pub doc: Seq<Seq<char>>,
    pub declaration: DeclarationView,
}

impl View for Head {
    type V = HeadView;

    open spec fn view(&self) -> HeadView {
        HeadView { doc: views(self.doc@), declaration: self.declaration@ }
    }
}

/// The view of an optional declaration.
pub open spec fn decl_view(d: Option<Declaration>) -> Option<DeclarationView> {
    match d {
        Some(d) => Some(d@),
        None => None,
    }
}

/// The head that attributes `k..` complete, after the documentation
/// lines `doc` and the declaration `decl` of those before; `after` is the
/// token that follows the attributes.
pub open spec fn head_from(
    t: Seq<Token>,
    attrs: Seq<AttrView>,
    k: int,
    doc: Seq<Seq<char>>,
    decl: Option<DeclarationView>,
    after: int,
) -> Result<HeadView, ParseError>
    decreases attrs.len() - k,
{
    if k < 0 || k >= attrs.len() {
        match decl {
            None => fail(ParseErrorKind::MissingDeclaration, after),
            Some(d) => Ok(HeadView { doc, declaration: d }),
        }
    } else {
        let a = attrs[k];
        if path_view_text(a.path) == "doc"@ {
            match doc_spec(t, a) {
                Err(e) => Err(e),
                Ok(line) => head_from(t, attrs, k + 1, doc.push(line), decl, after),
            }
        } else if decl is Some {
            fail(ParseErrorKind::DuplicateDeclaration, a.path.at as int)
        } else {
            match decl_args_spec(t, a) {
                Err(e) => Err(e),
                Ok(args) => head_from(
                    t,
                    attrs,
                    k + 1,
                    doc,
                    Some(DeclarationView { tag: path_view_text(a.path), tag_at: a.path.at, args }),
                    after,
                ),
            }
        }
    }
}

/// The head that starts at token `i`: its attributes, read as
/// documentation lines and one declaration.
pub open spec fn head_spec(t: Seq<Token>, i: int, end: int) -> Result<(HeadView, int), ParseError> {
    match attrs_rest(t, i, end, Seq::empty()) {
        Err(e) => Err(e),
        Ok((attrs, j)) => match head_from(t, attrs, 0, Seq::empty(), None, j) {
            Err(e) => Err(e),
            Ok(h) => Ok((h, j)),
        },
    }
}

/// The views of a sequence of attributes.
pub open spec fn attr_views(v: Seq<Attribute>) -> Seq<AttrView> {
    v.map_values(|a: Attribute| a@)
}

/// Parses the attribute whose `#` is token `i`.
fn parse_attr(t: &Vec<Token>, i: usize, end: usize) -> (r: Result<(Attribute, usize), ParseError>)
    requires
        i < end <= t@.len(),
    ensures
        res_view(r) == attr_spec(t@, i as int, end as int),
        r matches Ok((a, j)) ==> i < j <= end && i + 2 <= a.rest <= a.close && a.close < j,
{
    if !open_at(t, i + 1, end, Delimiter::Bracket) {
        return Err(ParseError { kind: ParseErrorKind::ExpectedBracket, at: i + 1 });
    }
    let c = match group_close(t, i + 1, end) {
        None => return Err(ParseError { kind: ParseErrorKind::Unbalanced, at: i + 1 }),
        Some(c) => c,
    };
    match parse_path(t, i + 2, c) {
        Err(e) => Err(e),
        Ok((path, j)) => Ok((Attribute { path, rest: j, close: c }, c + 1)),
    }
}

/// Parses the attributes from token `i` on.
fn parse_attrs(t: &Vec<Token>, i: usize, end: usize) -> (r: Result<(Vec<Attribute>, usize), ParseError>)
    requires
        i <= end <= t@.len(),
    ensures
        match r {
            Ok((v, j)) => attrs_rest(t@, i as int, end as int, Seq::empty()) == Ok::<(Seq<AttrView>, int), ParseError>(
                (attr_views(v@), j as int),
            ) && i <= j <= end && forall|k: int| 0 <= k < v@.len() ==> #[trigger] v@[k].rest <= v@[k].close < j,
            Err(e) => attrs_rest(t@, i as int, end as int, Seq::empty()) == Err::<(Seq<AttrView>, int), ParseError>(e),
        },
{
    let mut attrs: Vec<Attribute> = Vec::new();
    let mut j: usize = i;
    assert(attr_views(attrs@) =~= Seq::<AttrView>::empty());
    while punct_at(t, j, end, '#')
        invariant
            i <= j <= end,
            end <= t@.len(),
            attrs_rest(t@, i as int, end as int, Seq::empty()) == attrs_rest(t@, j as int, end as int, attr_views(attrs@)),
            forall|k: int| 0 <= k < attrs@.len() ==> #[trigger] attrs@[k].rest <= attrs@[k].close < j,
        decreases end - j,
    {
        let ghost before = attrs@;
        match parse_attr(t, j, end) {
            Err(e) => return Err(e),
            Ok((a, k)) => {
                attrs.push(a);
                j = k;
            },
        }
        proof {
            assert(attr_views(attrs@) =~= attr_views(before).push(attrs@.last()@));
        }
    }
    Ok((attrs, j))
}

/// Parses a documentation attribute's value.
fn parse_doc(t: &Vec<Token>, a: &Attribute) -> (r: Result<String, ParseError>)
    requires
        a.rest <= a.close <= t@.len(),
    ensures
        match r {
            Ok(v) => doc_spec(t@, a@) == Ok::<Seq<char>, ParseError>(v@),
            Err(e) => doc_spec(t@, a@) == Err::<Seq<char>, ParseError>(e),
        },
{
    if !punct_at(t, a.rest, a.close, '=') {
        return Err(ParseError { kind: ParseErrorKind::ExpectedEq, at: a.rest });
    }
    let value = if a.rest + 1 < a.close {
        match &t[a.rest + 1] {
            Token::Literal(s) => string_value(s),
            _ => None,
        }
    } else {
        None
    };
    match value {
        None => Err(ParseError { kind: ParseErrorKind::ExpectedString, at: a.rest + 1 }),
        Some(v) => {
            if a.rest + 2 < a.close {
                Err(ParseError { kind: ParseErrorKind::UnexpectedToken, at: a.rest + 2 })
            } else {
                Ok(v)
            }
        },
    }
}

/// Parses a declaration attribute's arguments.
fn parse_decl_args(t: &Vec<Token>, a: &Attribute) -> (r: Result<Option<DeclarationArgs>, ParseError>)
    requires
        a.rest <= a.close <= t@.len(),
    ensures
        match r {
            Ok(d) => decl_args_spec(t@, a@) == Ok::<Option<Seq<ArgView>>, ParseError>(match d {
                Some(d) => Some(arg_views(d.args@)),
                None => None,
            }),
            Err(e) => decl_args_spec(t@, a@) == Err::<Option<Seq<ArgView>>, ParseError>(e),
        },
{
    if a.rest >= a.close {
        return Ok(None);
    }
    if !open_at(t, a.rest, a.close, Delimiter::Parenthesis) {
        return Err(ParseError { kind: ParseErrorKind::ExpectedParen, at: a.rest });
    }
    let c = match group_close(t, a.rest, a.close) {
        None => return Err(ParseError { kind: ParseErrorKind::Unbalanced, at: a.rest }),
        Some(c) => c,
    };
    let (args, k) = match parse_args(t, a.rest + 1, c) {
        Err(e) => return Err(e),
        Ok(ak) => ak,
    };
    if k < c {
        Err(ParseError { kind: ParseErrorKind::UnexpectedToken, at: k })
    } else if c + 1 < a.close {
        Err(ParseError { kind: ParseErrorKind::UnexpectedToken, at: c + 1 })
    } else {
        Ok(Some(DeclarationArgs { args }))
    }
}

impl Head {
    /// Parses the head that starts at token `i`.
    pub fn parse(t: &Vec<Token>, i: usize, end: usize) -> (r: Result<(Head, usize), ParseError>)
        requires
            i <= end <= t@.len(),
        ensures
            res_view(r) == head_spec(t@, i as int, end as int),
            r matches Ok((_, j)) ==> i <= j <= end,
    {
        let (attrs, after) = match parse_attrs(t, i, end) {
            Err(e) => return Err(e),
            Ok(aj) => aj,
        };
        let ghost av = attr_views(attrs@);
        let mut doc: Vec<String> = Vec::new();
        let mut declaration: Option<Declaration> = None;
        let mut k: usize = 0;
        assert(views(doc@) =~= Seq::<Seq<char>>::empty());
        while k < attrs.len()
            invariant
                0 <= k <= attrs@.len(),
                after <= end <= t@.len(),
                av == attr_views(attrs@),
                i <= after,
                attrs_rest(t@, i as int, end as int, Seq::empty()) == Ok::<(Seq<AttrView>, int), ParseError>(
                    (av, after as int),
                ),
                forall|m: int| 0 <= m < attrs@.len() ==> #[trigger] attrs@[m].rest <= attrs@[m].close < after,
                head_from(t@, av, 0, Seq::empty(), None, after as int) == head_from(
                    t@,
                    av,
                    k as int,
                    views(doc@),
                    decl_view(declaration),
                    after as int,
                ),
            decreases attrs@.len() - k,
        {
            let a = &attrs[k];
            let tag = join_path(&a.path);
            if is_str(&tag, "doc") {
                let line = match parse_doc(t, a) {
                    Err(e) => return Err(e),
                    Ok(v) => v,
                };
                let ghost before = doc@;
                doc.push(line);
                proof {
                    assert(views(doc@) =~= views(before).push(line@));
                }
            } else {
                if declaration.is_some() {
                    return Err(ParseError { kind: ParseErrorKind::DuplicateDeclaration, at: a.path.at });
                }
                let args = match parse_decl_args(t, a) {
                    Err(e) => return Err(e),
                    Ok(d) => d,
                };
                declaration = Some(Declaration { tag, tag_at: a.path.at, args });
            }
            k = k + 1;
        }
        match declaration {
            None => Err(ParseError { kind: ParseErrorKind::MissingDeclaration, at: after }),
            Some(declaration) => Ok((Head { doc, declaration }, after)),
        }
    }
}

/// Reading attributes never moves backwards.
proof fn lemma_attrs_advance(t: Seq<Token>, j: int, end: int, acc: Seq<AttrView>)
    ensures
        attrs_rest(t, j, end, acc) matches Ok((_, k)) ==> j <= k,
    decreases end - j,
{
    if is_punct(t, j, end, '#') {
        lemma_close_bounds(t, j + 2, end, 1);
        if let Ok((a, k)) = attr_spec(t, j, end) {
            lemma_attrs_advance(t, k, end, acc.push(a));
        }
    }
}

/// A block as plain values.
pub struct BlockView {
    pub name: Seq<char>,
    pub at: usize,
    pub block: Fragment,
}

impl View for Block {
    type V = BlockView;

    open spec fn view(&self) -> BlockView {
        BlockView { name: self.name@, at: self.at, block: self.block }
    }
}

/// The block that starts at token `i`: an identifier and a braced group.
pub open spec fn block_spec(t: Seq<Token>, i: int, end: int) -> Result<(BlockView, int), ParseError> {
    if !(0 <= i < end && t[i] is Ident) {
        fail(ParseErrorKind::ExpectedIdent, i)
    } else if !is_open(t, i + 1, end, Delimiter::Brace) {
        fail(ParseErrorKind::ExpectedBrace, i + 1)
    } else {
        match close_from(t, i + 2, end, 1) {
            None => fail(ParseErrorKind::Unbalanced, i + 1),
            Some(c) => Ok((
                BlockView {
                    name: t[i]->Ident_0@,
                    at: i as usize,
                    block: Fragment { open: (i + 1) as usize, close: c as usize },
                },
                c + 1,
            )),
        }
    }
}

/// Past an optional `,` or `;` at token `k`.
pub open spec fn skip_separator(t: Seq<Token>, k: int, end: int) -> int {
    if is_punct(t, k, end, ',') || is_punct(t, k, end, ';') {
        k + 1
    } else {
        k
    }
}

/// The blocks from token `j` up to `end`, after `acc`.
pub open spec fn blocks_rest(t: Seq<Token>, j: int, end: int, acc: Seq<BlockView>) -> Result<(Seq<BlockView>, int), ParseError>
    decreases end - j
    via blocks_rest_decreases
{
    if j < 0 || j >= end {
        Ok((acc, j))
    } else {
        match block_spec(t, j, end) {
            Err(e) => Err(e),
            Ok((b, k)) => blocks_rest(t, skip_separator(t, k, end), end, acc.push(b)),
        }
    }
}

#[via_fn]
proof fn blocks_rest_decreases(t: Seq<Token>, j: int, end: int, acc: Seq<BlockView>) {
    lemma_close_bounds(t, j + 2, end, 1);
}

/// A property as plain values.
pub struct PropertyView {
    pub head: HeadView,
    pub name: Seq<char>,
    pub name_at: usize,
    pub blocks: Seq<BlockView>,
}

/// The views of a sequence of blocks.
pub open spec fn block_views(v: Seq<Block>) -> Seq<BlockView> {
    v.map_values(|b: Block| b@)
}

impl View for Property {
    type V = PropertyView;

    open spec fn view(&self) -> PropertyView {
        PropertyView { head: self.head@, name: self.name@, name_at: self.name_at, blocks: block_views(self.blocks.0@) }
    }
}

/// The property that starts at token `i`: a head, a string literal, `=>`
/// and a braced list of blocks.
pub open spec fn property_spec(t: Seq<Token>, i: int, end: int) -> Result<(PropertyView, int), ParseError> {
    match head_spec(t, i, end) {
        Err(e) => Err(e),
        Ok((h, j)) => if !(0 <= j < end && (t[j] matches Token::Literal(s) && string_start(s@)
            && str_literal_value(s@) is Some)) {
            fail(ParseErrorKind::ExpectedString, j)
        } else if !(is_joint_punct(t, j + 1, end, '=') && is_punct(t, j + 2, end, '>')) {
            fail(ParseErrorKind::ExpectedArrow, j + 1)
        } else if !is_open(t, j + 3, end, Delimiter::Brace) {
            fail(ParseErrorKind::ExpectedBrace, j + 3)
        } else {
            match close_from(t, j + 4, end, 1) {
                None => fail(ParseErrorKind::Unbalanced, j + 3),
                Some(c) => match blocks_rest(t, j + 4, c, Seq::empty()) {
                    Err(e) => Err(e),
                    Ok((bs, _)) => Ok((
                        PropertyView {
                            head: h,
                            name: str_literal_value(t[j]->Literal_0@)->Some_0,
                            name_at: j as usize,
                            blocks: bs,
                        },
                        c + 1,
                    )),
                },
            }
        },
    }
}

/// The properties from token `j` up to `end`, after `acc`.
pub open spec fn properties_rest(t: Seq<Token>, j: int, end: int, acc: Seq<PropertyView>) -> Result<(Seq<PropertyView>, int), ParseError>
    decreases end - j
    via properties_rest_decreases
{
    if j < 0 || j >= end {
        Ok((acc, j))
    } else {
        match property_spec(t, j, end) {
            Err(e) => Err(e),
            Ok((p, k)) => properties_rest(t, skip_separator(t, k, end), end, acc.push(p)),
        }
    }
}

#[via_fn]
proof fn properties_rest_decreases(t: Seq<Token>, j: int, end: int, acc: Seq<PropertyView>) {
    lemma_attrs_advance(t, j, end, Seq::empty());
    if let Ok((h, k)) = head_spec(t, j, end) {
        lemma_close_bounds(t, k + 4, end, 1);
    }
}

/// The whole token sequence read as a property list.
pub open spec fn properties_spec(t: Seq<Token>) -> Result<Seq<PropertyView>, ParseError> {
    match properties_rest(t, 0, t.len() as int, Seq::empty()) {
        Err(e) => Err(e),
        Ok((ps, _)) => Ok(ps),
    }
}

impl Block {
    /// Parses the block that starts at token `i`.
    pub fn parse(t: &Vec<Token>, i: usize, end: usize) -> (r: Result<(Block, usize), ParseError>)
        requires
            end <= t@.len(),
        ensures
            res_view(r) == block_spec(t@, i as int, end as int),
            r matches Ok((_, j)) ==> i < j <= end,
    {
        let name = if i < end {
            match &t[i] {
                Token::Ident(s) => s.clone(),
                _ => return Err(ParseError { kind: ParseErrorKind::ExpectedIdent, at: i }),
            }
        } else {
            return Err(ParseError { kind: ParseErrorKind::ExpectedIdent, at: i });
        };
        if !open_at(t, i + 1, end, Delimiter::Brace) {
            return Err(ParseError { kind: ParseErrorKind::ExpectedBrace, at: i + 1 });
        }
        match group_close(t, i + 1, end) {
            None => Err(ParseError { kind: ParseErrorKind::Unbalanced, at: i + 1 }),
            Some(c) => Ok((Block { name, at: i, block: Fragment { open: i + 1, close: c } }, c + 1)),
        }
    }
}

/// Past an optional `,` or `;` at token `k`.
fn skip_sep(t: &Vec<Token>, k: usize, end: usize) -> (r: usize)
    requires
        k <= end <= t@.len(),
    ensures
        r == skip_separator(t@, k as int, end as int),
        k <= r <= end,
{
    if punct_at(t, k, end, ',') || punct_at(t, k, end, ';') {
        k + 1
    } else {
        k
    }
}

impl LooselySeparated<Block> {
    /// Parses the blocks from token `i` up to `end`.
    pub fn parse(t: &Vec<Token>, i: usize, end: usize) -> (r: Result<LooselySeparated<Block>, ParseError>)
        requires
            i <= end <= t@.len(),
        ensures
            match r {
                Ok(l) => blocks_rest(t@, i as int, end as int, Seq::empty()) == Ok::<(Seq<BlockView>, int), ParseError>(
                    (block_views(l.0@), end as int),
                ),
                Err(e) => blocks_rest(t@, i as int, end as int, Seq::empty()) == Err::<(Seq<BlockView>, int), ParseError>(e),
            },
    {
        let mut items: Vec<Block> = Vec::new();
        let mut j: usize = i;
        assert(block_views(items@) =~= Seq::<BlockView>::empty());
        while j < end
            invariant
                i <= j <= end,
                end <= t@.len(),
                blocks_rest(t@, i as int, end as int, Seq::empty()) == blocks_rest(t@, j as int, end as int, block_views(items@)),
            decreases end - j,
        {
            let ghost before = items@;
            let (item, k) = match Block::parse(t, j, end) {
                Err(e) => return Err(e),
                Ok(bk) => bk,
            };
            items.push(item);
            proof {
                assert(block_views(items@) =~= block_views(before).push(items@.last()@));
            }
            j = skip_sep(t, k, end);
        }
        Ok(LooselySeparated(items))
    }
}

impl Property {
    /// Parses the property that starts at token `i`.
    pub fn parse(t: &Vec<Token>, i: usize, end: usize) -> (r: Result<(Property, usize), ParseError>)
        requires
            i <= end <= t@.len(),
        ensures
            res_view(r) == property_spec(t@, i as int, end as int),
            r matches Ok((_, j)) ==> i < j <= end,
    {
        let (head, j) = match Head::parse(t, i, end) {
            Err(e) => return Err(e),
            Ok(hj) => hj,
        };
        let name = if j < end {
            match &t[j] {
                Token::Literal(s) => string_value(s),
                _ => None,
            }
        } else {
            None
        };
        let name = match name {
            None => return Err(ParseError { kind: ParseErrorKind::ExpectedString, at: j }),
            Some(n) => n,
        };
        if !(joint_punct_at(t, j + 1, end, '=') && punct_at(t, j + 2, end, '>')) {
            return Err(ParseError { kind: ParseErrorKind::ExpectedArrow, at: j + 1 });
        }
        if !open_at(t, j + 3, end, Delimiter::Brace) {
            return Err(ParseError { kind: ParseErrorKind::ExpectedBrace, at: j + 3 });
        }
        let c = match group_close(t, j + 3, end) {
            None => return Err(ParseError { kind: ParseErrorKind::Unbalanced, at: j + 3 }),
            Some(c) => c,
        };
        let blocks = match LooselySeparated::<Block>::parse(t, j + 4, c) {
            Err(e) => return Err(e),
            Ok(b) => b,
        };
        Ok((Property { head, name, name_at: j, blocks }, c + 1))
    }
}

/// The views of a sequence of properties.
pub open spec fn property_views(v: Seq<Property>) -> Seq<PropertyView> {
    v.map_values(|p: Property| p@)
}

impl LooselySeparated<Property> {
    /// Parses the properties from token `i` up to `end`.
    pub fn parse(t: &Vec<Token>, i: usize, end: usize) -> (r: Result<LooselySeparated<Property>, ParseError>)
        requires
            i <= end <= t@.len(),
        ensures
            match r {
                Ok(l) => properties_rest(t@, i as int, end as int, Seq::empty()) == Ok::<(Seq<PropertyView>, int), ParseError>(
                    (property_views(l.0@), end as int),
                ),
                Err(e) => properties_rest(t@, i as int, end as int, Seq::empty()) == Err::<(Seq<PropertyView>, int), ParseError>(e),
            },
    {
        let mut items: Vec<Property> = Vec::new();
        let mut j: usize = i;
        assert(property_views(items@) =~= Seq::<PropertyView>::empty());
        while j < end
            invariant
                i <= j <= end,
                end <= t@.len(),
                properties_rest(t@, i as int, end as int, Seq::empty()) == properties_rest(
                    t@,
                    j as int,
                    end as int,
                    property_views(items@),
                ),
            decreases end - j,
        {
            let ghost before = items@;
            let (item, k) = match Property::parse(t, j, end) {
                Err(e) => return Err(e),
                Ok(pk) => pk,
            };
            items.push(item);
            proof {
                assert(property_views(items@) =~= property_views(before).push(items@.last()@));
            }
            j = skip_sep(t, k, end);
        }
        Ok(LooselySeparated(items))
    }
}

impl Properties {
    /// Parses a whole token sequence as a property list.
    pub fn parse(t: &Vec<Token>) -> (r: Result<Properties, ParseError>)
        ensures
            match r {
                Ok(ps) => properties_spec(t@) == Ok::<Seq<PropertyView>, ParseError>(property_views(ps.0.0@)),
                Err(e) => properties_spec(t@) == Err::<Seq<PropertyView>, ParseError>(e),
            },
    {
        match LooselySeparated::<Property>::parse(t, 0, t.len()) {
            Err(e) => Err(e),
            Ok(l) => Ok(Properties(l)),
        }
    }
}

} // verus!
