use vstd::prelude::*;

verus! {

broadcast use vstd::string::axiom_spec_iter;

/// Every kind of lexical unit the shader language knows.
#[derive(Clone, Copy, Debug, PartialEq, Eq, Structural)]
pub enum TokenType {
    Pound,
    DoubleLeftBrace,
    DoubleRightBrace,
    LeftBrace,
    RightBrace,
    LeftParen,
    RightParen,
    LeftBracket,
    RightBracket,
    Semicolon,
    Comma,
    Period,
    Equals,
    EqualsEquals,
    Plus,
    PlusPlus,
    Minus,
    MinusMinus,
    Asterisk,
    Slash,
    In,
    Out,
    Version,
    Void,
    Uniform,
    Sampler,
    Sampler2d,
    Texture2d,
    Image2d,
    Float,
    Uint,
    Vec2,
    Vec3,
    Vec4,
    Mat2,
    Mat3,
    Mat4,
    DirectiveVersion,
    DirectiveLocation,
    DirectiveSetBinding,
    DirectivePushConstant,
    RateVertex,
    RateInstance,
    Binding,
    Offset,
    TightlyPacked,
    BufferLabel,
    Text,
}

/// A classified lexical unit. Keyword and free-text tokens carry the text
/// they were read from; punctuation and operators carry none.
#[derive(Debug)]
pub struct Token {
    pub token_type: TokenType,
    pub string_view: Option<String>,
}

/// The mathematical value of a token: its kind and, if any, its text.
pub struct LexedToken {
    pub token_type: TokenType,
    pub lexeme: Option<Seq<char>>,
}

/// One step of the scan: the characters it consumed and the token it
/// produced, if it produced one.
pub struct ScanUnit {
    pub span: Seq<char>,
    pub token: Option<LexedToken>,
}

impl View for Token {
    type V = LexedToken;

    open spec fn view(&self) -> LexedToken {
        LexedToken {
            token_type: self.token_type,
            lexeme: match self.string_view {
                Some(s) => Some(s@),
                None => None,
            },
        }
    }
}

/// The value of each token, in order.
pub open spec fn tokens_view(v: Seq<Token>) -> Seq<LexedToken> {
    v.map_values(|t: Token| t@)
}

/// What `char::is_whitespace` returns: the Unicode White_Space property.
pub uninterp spec fn unicode_whitespace(c: char) -> bool;

/// What `char::is_alphanumeric` returns: the Unicode Alphabetic or Numeric property.
pub uninterp spec fn unicode_alphanumeric(c: char) -> bool;

/// Relies on `char::is_whitespace`, which depends on the character alone.
#[verifier::external_body]
fn is_whitespace(c: char) -> (r: bool)
    ensures
        r == unicode_whitespace(c),
{
    c.is_whitespace()
}

/// Relies on `char::is_alphanumeric`, which depends on the character alone.
#[verifier::external_body]
fn is_alphanumeric(c: char) -> (r: bool)
    ensures
        r == unicode_alphanumeric(c),
{
    c.is_alphanumeric()
}

/// What the Unicode tables say of one character.
#[derive(Clone, Copy, Debug, PartialEq, Eq, Structural)]
pub struct CharClass {
    pub whitespace: bool,
    pub alphanumeric: bool,
}

pub open spec fn class_of(c: char) -> CharClass {
    CharClass { whitespace: unicode_whitespace(c), alphanumeric: unicode_alphanumeric(c) }
}

/// The class of each character of `s`, in order.
pub open spec fn classes_of(s: Seq<char>) -> Seq<CharClass> {
    s.map_values(|c: char| class_of(c))
}

/// Characters that may continue an identifier or keyword, given their class.
pub open spec fn is_word_char(c: char, k: CharClass) -> bool {
    k.alphanumeric || c == '_'
}

/// Length of the longest prefix of `s` made of word characters; `k` holds
/// the class of each character of `s`.
pub open spec fn word_len(s: Seq<char>, k: Seq<CharClass>) -> nat
    decreases s.len(),
{
    if s.len() > 0 && is_word_char(s[0], k[0]) {
        1 + word_len(s.drop_first(), k.drop_first())
    } else {
        0
    }
}

/// Length of the longest prefix of `s` without a newline.
pub open spec fn line_len(s: Seq<char>) -> nat
    decreases s.len(),
{
    if s.len() > 0 && s[0] != '\n' {
        1 + line_len(s.drop_first())
    } else {
        0
    }
}

/// The keyword and directive table; anything else is free text.
pub open spec fn keyword_kind(w: Seq<char>) -> TokenType {
    if w == "in"@ { TokenType::In }
    else if w == "out"@ { TokenType::Out }
    else if w == "version"@ { TokenType::Version }
    else if w == "void"@ { TokenType::Void }
    else if w == "uniform"@ { TokenType::Uniform }
    else if w == "sampler"@ { TokenType::Sampler }
    else if w == "sampler2D"@ { TokenType::Sampler2d }
    else if w == "texture2D"@ { TokenType::Texture2d }
    else if w == "image2D"@ { TokenType::Image2d }
    else if w == "float"@ { TokenType::Float }
    else if w == "uint"@ { TokenType::Uint }
    else if w == "vec2"@ { TokenType::Vec2 }
    else if w == "vec3"@ { TokenType::Vec3 }
    else if w == "vec4"@ { TokenType::Vec4 }
    else if w == "mat2"@ { TokenType::Mat2 }
    else if w == "mat3"@ { TokenType::Mat3 }
    else if w == "mat4"@ { TokenType::Mat4 }
    else if w == "VERSION"@ { TokenType::DirectiveVersion }
    else if w == "LOCATION"@ { TokenType::DirectiveLocation }
    else if w == "SET_BINDING"@ { TokenType::DirectiveSetBinding }
    else if w == "PUSH_CONSTANT"@ { TokenType::DirectivePushConstant }
    else if w == "RATE_VERTEX"@ { TokenType::RateVertex }
    else if w == "RATE_INSTANCE"@ { TokenType::RateInstance }
    else if w == "BINDING"@ { TokenType::Binding }
    else if w == "OFFSET"@ { TokenType::Offset }
    else if w == "TIGHTLY_PACKED"@ { TokenType::TightlyPacked }
    else if w == "BUFFER_LABEL"@ { TokenType::BufferLabel }
    else { TokenType::Text }
}

/// Characters that have a single-character form and a doubled form:
/// the kind of each.
pub open spec fn doubled_kinds(c: char) -> Option<(TokenType, TokenType)> {
    if c == '{' { Some((TokenType::LeftBrace, TokenType::DoubleLeftBrace)) }
    else if c == '}' { Some((TokenType::RightBrace, TokenType::DoubleRightBrace)) }
    else if c == '+' { Some((TokenType::Plus, TokenType::PlusPlus)) }
    else if c == '-' { Some((TokenType::Minus, TokenType::MinusMinus)) }
    else if c == '=' { Some((TokenType::Equals, TokenType::EqualsEquals)) }
    else { None }
}

/// Characters that always stand alone.
pub open spec fn single_kind(c: char) -> Option<TokenType> {
    if c == '#' { Some(TokenType::Pound) }
    else if c == '(' { Some(TokenType::LeftParen) }
    else if c == ')' { Some(TokenType::RightParen) }
    else if c == '[' { Some(TokenType::LeftBracket) }
    else if c == ']' { Some(TokenType::RightBracket) }
    else if c == ';' { Some(TokenType::Semicolon) }
    else if c == ',' { Some(TokenType::Comma) }
    else if c == '.' { Some(TokenType::Period) }
    else if c == '*' { Some(TokenType::Asterisk) }
    else { None }
}

pub open spec fn bare(k: TokenType) -> Option<LexedToken> {
    Some(LexedToken { token_type: k, lexeme: None })
}

/// The token for a run of word characters (or for a lone unknown symbol).
pub open spec fn word_token(w: Seq<char>) -> Option<LexedToken> {
    Some(LexedToken { token_type: keyword_kind(w), lexeme: Some(w) })
}

/// The first scan step on a non-empty `s`, whose characters have the
/// classes `k`: how many characters it consumes and the token it yields, if
/// any. Whitespace and comments yield none.
pub open spec fn next_unit(s: Seq<char>, k: Seq<CharClass>) -> (nat, Option<LexedToken>) {
    let c = s[0];
    let doubled = s.len() > 1 && s[1] == c;
    if k[0].whitespace {
        (1, None)
    } else if c == '/' {
        if doubled {
            (2 + line_len(s.skip(2)), None)
        } else {
            (1, bare(TokenType::Slash))
        }
    } else if doubled_kinds(c) is Some {
        let (lone, pair) = doubled_kinds(c)->0;
        if doubled {
            (2, bare(pair))
        } else {
            (1, bare(lone))
        }
    } else if single_kind(c) is Some {
        (1, bare(single_kind(c)->0))
    } else if word_len(s, k) == 0 {
        (1, word_token(s.take(1)))
    } else {
        (word_len(s, k), word_token(s.take(word_len(s, k) as int)))
    }
}

/// The whole scan of `s`, step by step. Every step consumes between one
/// character and the rest of the input (`lemma_next_unit_bounds`), so the
/// guard below always holds.
pub open spec fn scan(s: Seq<char>, k: Seq<CharClass>) -> Seq<ScanUnit>
    decreases s.len(),
{
    if s.len() == 0 {
        seq![]
    } else {
        let (n, t) = next_unit(s, k);
        if 0 < n <= s.len() {
            seq![ScanUnit { span: s.take(n as int), token: t }] + scan(
                s.skip(n as int),
                k.skip(n as int),
            )
        } else {
            seq![]
        }
    }
}

/// The tokens that a sequence of scan steps yields, in order.
pub open spec fn tokens_of(us: Seq<ScanUnit>) -> Seq<LexedToken>
    decreases us.len(),
{
    if us.len() == 0 {
        seq![]
    } else {
        match us[0].token {
            Some(t) => seq![t] + tokens_of(us.drop_first()),
            None => tokens_of(us.drop_first()),
        }
    }
}

/// The token sequence of a source text whose characters have the classes `k`.
pub open spec fn lexed(s: Seq<char>, k: Seq<CharClass>) -> Seq<LexedToken> {
    tokens_of(scan(s, k))
}

/// The characters consumed by each scan step, in order.
pub open spec fn spans_of(us: Seq<ScanUnit>) -> Seq<Seq<char>> {
    us.map_values(|u: ScanUnit| u.span)
}

/// A word never runs past the end of the input.
pub proof fn lemma_word_len_bounds(s: Seq<char>, k: Seq<CharClass>)
    ensures
        word_len(s, k) <= s.len(),
    decreases s.len(),
{
    if s.len() > 0 && is_word_char(s[0], k[0]) {
        lemma_word_len_bounds(s.drop_first(), k.drop_first());
    }
}

/// A comment never runs past the end of the input.
pub proof fn lemma_line_len_bounds(s: Seq<char>)
    ensures
        line_len(s) <= s.len(),
    decreases s.len(),
{
    if s.len() > 0 && s[0] != '\n' {
        lemma_line_len_bounds(s.drop_first());
    }
}

/// Every scan step makes progress and stays inside the input.
pub proof fn lemma_next_unit_bounds(s: Seq<char>, k: Seq<CharClass>)
    requires
        s.len() > 0,
    ensures
        0 < next_unit(s, k).0 <= s.len(),
{
    lemma_word_len_bounds(s, k);
    lemma_line_len_bounds(s.skip(2));
}

/// Unfolds one step of `scan`.
proof fn lemma_scan_step(s: Seq<char>, k: Seq<CharClass>)
    requires
        s.len() > 0,
    ensures
        scan(s, k) == seq![ScanUnit { span: s.take(next_unit(s, k).0 as int), token: next_unit(s, k).1 }]
            + scan(s.skip(next_unit(s, k).0 as int), k.skip(next_unit(s, k).0 as int)),
{
    lemma_next_unit_bounds(s, k);
}

/// Unfolds one step of `tokens_of`.
proof fn lemma_tokens_of_cons(u: ScanUnit, rest: Seq<ScanUnit>)
    ensures
        tokens_of(seq![u] + rest) == match u.token {
            Some(t) => seq![t] + tokens_of(rest),
            None => tokens_of(rest),
        },
{
    assert((seq![u] + rest).drop_first() =~= rest);
}

impl Token {
    /// A token that carries no text.
    pub fn new(token_type: TokenType) -> (r: Token)
        ensures
            r@ == (LexedToken { token_type, lexeme: None }),
    {
        Token { token_type, string_view: None }
    }

    /// A token that carries the text it was read from.
    pub fn new_text_token(token_type: TokenType, string_view: String) -> (r: Token)
        ensures
            r@ == (LexedToken { token_type, lexeme: Some(string_view@) }),
    {
        Token { token_type, string_view: Some(string_view) }
    }
}

/// Character-by-character equality of two strings.
pub(crate) fn same_text(a: &str, b: &str) -> (r: bool)
    ensures
        r == (a@ == b@),
{
    let n = a.unicode_len();
    if n != b.unicode_len() {
        return false;
    }
    let mut i: usize = 0;
    while i < n
        invariant
            n == a@.len() == b@.len(),
            i <= n,
            a@.take(i as int) == b@.take(i as int),
        decreases n - i,
    {
        if a.get_char(i) != b.get_char(i) {
            assert(a@[i as int] != b@[i as int]);
            return false;
        }
        assert(a@.take(i + 1) =~= a@.take(i as int).push(a@[i as int]));
        assert(b@.take(i + 1) =~= b@.take(i as int).push(b@[i as int]));
        i = i + 1;
    }
    assert(a@ =~= a@.take(n as int));
    assert(b@ =~= b@.take(n as int));
    true
}

/// Looks a word up in the keyword and directive table (exact and
/// case-sensitive); a word that is not there is free text.
pub fn string_slice_to_token_type(slice: &str) -> (r: TokenType)
    ensures
        r == keyword_kind(slice@),
{
    if same_text(slice, "in") { TokenType::In }
    else if same_text(slice, "out") { TokenType::Out }
    else if same_text(slice, "version") { TokenType::Version }
    else if same_text(slice, "void") { TokenType::Void }
    else if same_text(slice, "uniform") { TokenType::Uniform }
    else if same_text(slice, "sampler") { TokenType::Sampler }
    else if same_text(slice, "sampler2D") { TokenType::Sampler2d }
    else if same_text(slice, "texture2D") { TokenType::Texture2d }
    else if same_text(slice, "image2D") { TokenType::Image2d }
    else if same_text(slice, "float") { TokenType::Float }
    else if same_text(slice, "uint") { TokenType::Uint }
    else if same_text(slice, "vec2") { TokenType::Vec2 }
    else if same_text(slice, "vec3") { TokenType::Vec3 }
    else if same_text(slice, "vec4") { TokenType::Vec4 }
    else if same_text(slice, "mat2") { TokenType::Mat2 }
    else if same_text(slice, "mat3") { TokenType::Mat3 }
    else if same_text(slice, "mat4") { TokenType::Mat4 }
    else if same_text(slice, "VERSION") { TokenType::DirectiveVersion }
    else if same_text(slice, "LOCATION") { TokenType::DirectiveLocation }
    else if same_text(slice, "SET_BINDING") { TokenType::DirectiveSetBinding }
    else if same_text(slice, "PUSH_CONSTANT") { TokenType::DirectivePushConstant }
    else if same_text(slice, "RATE_VERTEX") { TokenType::RateVertex }
    else if same_text(slice, "RATE_INSTANCE") { TokenType::RateInstance }
    else if same_text(slice, "BINDING") { TokenType::Binding }
    else if same_text(slice, "OFFSET") { TokenType::Offset }
    else if same_text(slice, "TIGHTLY_PACKED") { TokenType::TightlyPacked }
    else if same_text(slice, "BUFFER_LABEL") { TokenType::BufferLabel }
    else { TokenType::Text }
}

/// Copies the characters of `s` into a vector, in order.
fn chars_of(s: &str) -> (r: Vec<char>)
    ensures
        r@ == s@,
{
    let mut v: Vec<char> = Vec::new();
    for c in it: s.chars()
        invariant
            it.seq() == s@,
            v@ == it.seq().take(it.index() as int),
    {
        v.push(c);
    }
    v
}

/// End of the run of word characters that starts at `start`.
fn word_end(chars: &Vec<char>, classes: &Vec<CharClass>, start: usize) -> (end: usize)
    requires
        start <= chars@.len(),
        classes@.len() == chars@.len(),
    ensures
        end == start + word_len(chars@.skip(start as int), classes@.skip(start as int)),
{
    let mut j = start;
    while j < chars.len() && (classes[j].alphanumeric || chars[j] == '_')
        invariant
            start <= j <= chars@.len(),
            classes@.len() == chars@.len(),
            word_len(chars@.skip(start as int), classes@.skip(start as int)) == (j - start)
                + word_len(chars@.skip(j as int), classes@.skip(j as int)),
        decreases chars@.len() - j,
    {
        assert(chars@.skip(j as int).drop_first() =~= chars@.skip(j + 1));
        assert(classes@.skip(j as int).drop_first() =~= classes@.skip(j + 1));
        j = j + 1;
    }
    j
}

/// End of the line that starts at `start`: the next newline, or the end.
fn line_end(chars: &Vec<char>, start: usize) -> (end: usize)
    requires
        start <= chars@.len(),
    ensures
        end == start + line_len(chars@.skip(start as int)),
{
    let mut j = start;
    while j < chars.len() && chars[j] != '\n'
        invariant
            start <= j <= chars@.len(),
            line_len(chars@.skip(start as int)) == (j - start) + line_len(chars@.skip(j as int)),
        decreases chars@.len() - j,
    {
        assert(chars@.skip(j as int).drop_first() =~= chars@.skip(j + 1));
        j = j + 1;
    }
    j
}

/// The token for a word or a lone unknown symbol: its kind from the table,
/// with its text.
fn word_token_at(string: &str, start: usize, end: usize) -> (r: Token)
    requires
        start <= end <= string@.len(),
    ensures
        Some(r@) == word_token(string@.subrange(start as int, end as int)),
{
    let text = string.substring_char(start, end);
    let token_type = string_slice_to_token_type(text);
    Token::new_text_token(token_type, text.to_owned())
}

/// One scan step at position `i`.
fn scan_step(string: &str, chars: &Vec<char>, classes: &Vec<CharClass>, i: usize) -> (r: (
    usize,
    Option<Token>,
))
    requires
        chars@ == string@,
        classes@.len() == chars@.len(),
        i < chars@.len(),
    ensures
        r.0 == next_unit(chars@.skip(i as int), classes@.skip(i as int)).0,
        match r.1 {
            Some(t) => next_unit(chars@.skip(i as int), classes@.skip(i as int)).1 == Some(t@),
            None => next_unit(chars@.skip(i as int), classes@.skip(i as int)).1 is None,
        },
{
    let ghost s = chars@.skip(i as int);
    let ghost k = classes@.skip(i as int);
    let c = chars[i];
    let doubled = chars.len() - i > 1 && chars[i + 1] == c;
    assert(doubled == (s.len() > 1 && s[1] == c));
    if classes[i].whitespace {
        (1, None)
    } else if c == '/' {
        if doubled {
            let end = line_end(chars, i + 2);
            assert(chars@.skip(i + 2) =~= s.skip(2));
            (end - i, None)
        } else {
            (1, Some(Token::new(TokenType::Slash)))
        }
    } else if c == '{' || c == '}' || c == '+' || c == '-' || c == '=' {
        let (lone, pair) = if c == '{' {
            (TokenType::LeftBrace, TokenType::DoubleLeftBrace)
        } else if c == '}' {
            (TokenType::RightBrace, TokenType::DoubleRightBrace)
        } else if c == '+' {
            (TokenType::Plus, TokenType::PlusPlus)
        } else if c == '-' {
            (TokenType::Minus, TokenType::MinusMinus)
        } else {
            (TokenType::Equals, TokenType::EqualsEquals)
        };
        if doubled {
            (2, Some(Token::new(pair)))
        } else {
            (1, Some(Token::new(lone)))
        }
    } else if c == '#' {
        (1, Some(Token::new(TokenType::Pound)))
    } else if c == '(' {
        (1, Some(Token::new(TokenType::LeftParen)))
    } else if c == ')' {
        (1, Some(Token::new(TokenType::RightParen)))
    } else if c == '[' {
        (1, Some(Token::new(TokenType::LeftBracket)))
    } else if c == ']' {
        (1, Some(Token::new(TokenType::RightBracket)))
    } else if c == ';' {
        (1, Some(Token::new(TokenType::Semicolon)))
    } else if c == ',' {
        (1, Some(Token::new(TokenType::Comma)))
    } else if c == '.' {
        (1, Some(Token::new(TokenType::Period)))
    } else if c == '*' {
        (1, Some(Token::new(TokenType::Asterisk)))
    } else {
        let end = word_end(chars, classes, i);
        proof {
            lemma_word_len_bounds(s, k);
        }
        if end == i {
            let t = word_token_at(string, i, i + 1);
            assert(chars@.subrange(i as int, i + 1) =~= s.take(1));
            (1, Some(t))
        } else {
            let t = word_token_at(string, i, end);
            assert(chars@.subrange(i as int, end as int) =~= s.take(end - i));
            (end - i, Some(t))
        }
    }
}

/// Splits a shader source into its tokens, in order, given the class of
/// each of its characters. Whitespace and line comments are consumed and
/// yield no token; the scan always reaches the end of the input.
pub fn lex_classified(string: &str, classes: &Vec<CharClass>) -> (r: Vec<Token>)
    requires
        classes@.len() == string@.len(),
    ensures
        tokens_view(r@) == lexed(string@, classes@),
{
    let chars = chars_of(string);
    let mut tokens: Vec<Token> = Vec::new();
    let mut i: usize = 0;
    assert(chars@.skip(0) =~= chars@);
    assert(classes@.skip(0) =~= classes@);
    while i < chars.len()
        invariant
            chars@ == string@,
            classes@.len() == chars@.len(),
            i <= chars@.len(),
            lexed(chars@, classes@) == tokens_view(tokens@) + lexed(
                chars@.skip(i as int),
                classes@.skip(i as int),
            ),
        decreases chars@.len() - i,
    {
        let ghost s = chars@.skip(i as int);
        let ghost k = classes@.skip(i as int);
        let (n, t) = scan_step(string, &chars, classes, i);
        proof {
            lemma_scan_step(s, k);
            lemma_next_unit_bounds(s, k);
            let u = ScanUnit { span: s.take(n as int), token: next_unit(s, k).1 };
            lemma_tokens_of_cons(u, scan(s.skip(n as int), k.skip(n as int)));
            assert(s.skip(n as int) =~= chars@.skip(i + n));
            assert(k.skip(n as int) =~= classes@.skip(i + n));
        }
        match t {
            Some(t) => {
                let ghost before = tokens@;
                tokens.push(t);
                assert(tokens_view(tokens@) =~= tokens_view(before).push(t@));
            },
            None => {},
        }
        i = i + n;
    }
    assert(chars@.skip(i as int) =~= Seq::<char>::empty());
    tokens
}

/// The Unicode class of each character of `s`.
pub fn classify_chars(s: &str) -> (r: Vec<CharClass>)
    ensures
        r@ == classes_of(s@),
{
    let chars = chars_of(s);
    let mut out: Vec<CharClass> = Vec::new();
    let mut i: usize = 0;
    while i < chars.len()
        invariant
            chars@ == s@,
            i <= chars@.len(),
            out@ == classes_of(s@).take(i as int),
        decreases chars@.len() - i,
    {
        let c = chars[i];
        out.push(CharClass { whitespace: is_whitespace(c), alphanumeric: is_alphanumeric(c) });
        assert(classes_of(s@).take(i + 1) =~= classes_of(s@).take(i as int).push(class_of(c)));
        i = i + 1;
    }
    assert(classes_of(s@).take(i as int) =~= classes_of(s@));
    out
}

/// Splits a shader source into its tokens, in order: whitespace is what
/// `char::is_whitespace` accepts, and words run over what
/// `char::is_alphanumeric` accepts and `_`.
pub fn lex_string(string: &String) -> (r: Vec<Token>)
    ensures
        tokens_view(r@) == lexed(string@, classes_of(string@)),
{
    let classes = classify_chars(string.as_str());
    lex_classified(string.as_str(), &classes)
}

/// Concatenating the characters consumed by the scan steps, whitespace and
/// comments included, gives back the source text exactly: the scan consumes
/// the whole input, in order, and nothing twice.
pub proof fn lemma_spans_rebuild_source(s: Seq<char>, k: Seq<CharClass>)
    ensures
        spans_of(scan(s, k)).flatten() == s,
    decreases s.len(),
{
    if s.len() == 0 {
        assert(spans_of(scan(s, k)) =~= Seq::<Seq<char>>::empty());
        assert(s =~= Seq::<char>::empty());
    } else {
        lemma_scan_step(s, k);
        lemma_next_unit_bounds(s, k);
        let n = next_unit(s, k).0 as int;
        lemma_spans_rebuild_source(s.skip(n), k.skip(n));
        assert(spans_of(scan(s, k)).drop_first() =~= spans_of(scan(s.skip(n), k.skip(n))));
        assert(spans_of(scan(s, k)).first() == s.take(n));
        assert(s.take(n) + s.skip(n) =~= s);
    }
}

/// Tokenizing equal texts yields equal token sequences: the lexer is a
/// function of its input alone.
pub proof fn lemma_lexing_is_deterministic(s1: Seq<char>, s2: Seq<char>)
    requires
        s1 == s2,
    ensures
        lexed(s1, classes_of(s1)) == lexed(s2, classes_of(s2)),
{
}

} // verus!
