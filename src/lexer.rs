use vstd::prelude::*;

verus! {

/// A reserved word of the language.
#[derive(Debug, Clone, Copy, PartialEq, Eq, Structural)]
pub enum Reserved {
    Function,
    Let,
    If,
    Else,
    True,
    False,
    Return,
}

/// A classified lexical unit.
#[derive(Debug, Clone, PartialEq, Eq)]
pub enum Token {
    Reserved(Reserved),
    /// An integer literal, `12` or `-3`.
    Number(i64),
    /// A string literal without its quotes.
    String(String),
    /// `{`
    LeftBrace,
    /// `}`
    RightBrace,
    /// `(`
    LeftParenthesis,
    /// `)`
    RightParenthesis,
    /// `=`
    Assign,
    /// `==`
    Equal,
    /// A name made of letters, digits and `_`, not starting with a digit.
    Identifier(String),
    /// `+`
    OpsAdd,
    /// `-`
    OpsSub,
    /// `*`
    OpsMul,
    /// `/`
    OpsDiv,
    /// `,`
    Comma,
}

/// A token as a mathematical value: payload text as a sequence of
/// characters.
pub enum TokenView {
    Reserved(Reserved),
    Number(i64),
    Str(Seq<char>),
    LeftBrace,
    RightBrace,
    LeftParenthesis,
    RightParenthesis,
    Assign,
    Equal,
    Identifier(Seq<char>),
    OpsAdd,
    OpsSub,
    OpsMul,
    OpsDiv,
    Comma,
}

impl View for Token {
    type V = TokenView;

    open spec fn view(&self) -> TokenView {
        match self {
            Token::Reserved(r) => TokenView::Reserved(*r),
            Token::Number(n) => TokenView::Number(*n),
            Token::String(s) => TokenView::Str(s@),
            Token::LeftBrace => TokenView::LeftBrace,
            Token::RightBrace => TokenView::RightBrace,
            Token::LeftParenthesis => TokenView::LeftParenthesis,
            Token::RightParenthesis => TokenView::RightParenthesis,
            Token::Assign => TokenView::Assign,
            Token::Equal => TokenView::Equal,
            Token::Identifier(s) => TokenView::Identifier(s@),
            Token::OpsAdd => TokenView::OpsAdd,
            Token::OpsSub => TokenView::OpsSub,
            Token::OpsMul => TokenView::OpsMul,
            Token::OpsDiv => TokenView::OpsDiv,
            Token::Comma => TokenView::Comma,
        }
    }
}

/// Why a text could not be split into tokens; each carries the character
/// position where the offending unit starts.
#[derive(Debug, Clone, Copy, PartialEq, Eq, Structural)]
pub enum LexError {
    /// A `"` without a closing `"`.
    UnclosedString(usize),
    /// A numeric literal that is not an optional `-` followed by digits, or
    /// whose value does not fit in 64 bits.
    BadNumber(usize),
    /// A character that starts no token.
    UnexpectedChar(char, usize),
}

/// Whether `c` may stand in a numeric literal; a leading `-` is accepted only
/// at the literal's first position.
pub open spec fn num_char(c: char, at_beginning: bool) -> bool {
    ('0' <= c && c <= '9') || c == '.' || (at_beginning && c == '-')
}

/// Whether `c` may stand in an identifier; digits are refused at its first
/// position.
pub open spec fn id_char(c: char, at_beginning: bool) -> bool {
    ('a' <= c && c <= 'z') || ('A' <= c && c <= 'Z') || c == '_' || (!at_beginning && '0'
        <= c && c <= '9')
}

pub fn is_num(c: char, at_begining: bool) -> (r: bool)
    ensures
        r == num_char(c, at_begining),
{
    let is_num_or_dot = ('0' <= c && c <= '9') || c == '.';
    if at_begining {
        is_num_or_dot || c == '-'
    } else {
        is_num_or_dot
    }
}

pub fn is_id(c: char, at_begining: bool) -> (r: bool)
    ensures
        r == id_char(c, at_begining),
{
    let is_alpha = ('a' <= c && c <= 'z') || ('A' <= c && c <= 'Z') || c == '_';
    if at_begining {
        is_alpha
    } else {
        is_alpha || ('0' <= c && c <= '9')
    }
}

pub open spec fn digit_value(c: char) -> int {
    c as int - '0' as int
}

/// The value of a run of decimal digits.
pub open spec fn digits_value(s: Seq<char>) -> int
    decreases s.len(),
{
    if s.len() == 0 {
        0
    } else {
        digits_value(s.drop_last()) * 10 + digit_value(s.last())
    }
}

pub open spec fn all_digits(s: Seq<char>) -> bool {
    forall|i: int| 0 <= i < s.len() ==> '0' <= #[trigger] s[i] && s[i] <= '9'
}

/// The value of a numeric literal: an optional `-` and at least one digit.
pub open spec fn literal_value(s: Seq<char>) -> Option<int> {
    if s.len() > 0 && s[0] == '-' && s.len() > 1 && all_digits(s.drop_first()) {
        Some(-digits_value(s.drop_first()))
    } else if s.len() > 0 && all_digits(s) {
        Some(digits_value(s))
    } else {
        None
    }
}

/// `end` closes the longest run of literal characters (`num`) or identifier
/// characters that follows position `begin`.
pub open spec fn run_end_ok(s: Seq<char>, begin: int, end: int, num: bool) -> bool {
    &&& begin < end <= s.len()
    &&& forall|i: int|
        begin < i < end ==> (if num {
            num_char(#[trigger] s[i], false)
        } else {
            id_char(s[i], false)
        })
    &&& end < s.len() ==> !(if num {
        num_char(s[end], false)
    } else {
        id_char(s[end], false)
    })
}

fn run_end(chars: &Vec<char>, begin: usize, num: bool) -> (end: usize)
    requires
        begin < chars.len(),
    ensures
        run_end_ok(chars@, begin as int, end as int, num),
{
    let mut end = begin + 1;
    while end < chars.len()
        invariant
            begin < end <= chars.len(),
            forall|i: int|
                begin < i < end ==> (if num {
                    num_char(#[trigger] chars@[i], false)
                } else {
                    id_char(chars@[i], false)
                }),
        ensures
            run_end_ok(chars@, begin as int, end as int, num),
        decreases chars.len() - end,
    {
        let c = chars[end];
        let more = if num {
            is_num(c, false)
        } else {
            is_id(c, false)
        };
        if !more {
            break;
        }
        end = end + 1;
    }
    end
}

proof fn lemma_digits_prefix(s: Seq<char>, k: int)
    requires
        0 < k <= s.len(),
    ensures
        s.subrange(0, k).drop_last() =~= s.subrange(0, k - 1),
        s.subrange(0, k).last() == s[k - 1],
{
}

/// The value of the digits `chars[from..to]`, if it fits in an `i64`.
fn parse_digits(chars: &Vec<char>, from: usize, to: usize) -> (r: Option<i64>)
    requires
        from <= to <= chars.len(),
        all_digits(chars@.subrange(from as int, to as int)),
    ensures
        match r {
            Some(v) => v >= 0 && v as int == digits_value(chars@.subrange(from as int, to as int)),
            None => digits_value(chars@.subrange(from as int, to as int)) > i64::MAX,
        },
{
    let ghost s = chars@.subrange(from as int, to as int);
    let mut acc: i64 = 0;
    let mut i: usize = from;
    while i < to
        invariant
            from <= i <= to <= chars.len(),
            s == chars@.subrange(from as int, to as int),
            all_digits(s),
            acc as int == digits_value(s.subrange(0, i - from)),
            0 <= acc,
        decreases to - i,
    {
        let c = chars[i];
        proof {
            assert(s[i - from] == c);
            lemma_digits_prefix(s, i - from + 1);
            assert(s.subrange(0, i - from + 1).subrange(0, i - from) =~= s.subrange(0, i - from));
        }
        let d: i64 = (c as u32 - '0' as u32) as i64;
        if acc > (i64::MAX - d) / 10 {
            proof {
                lemma_digits_grow(s, i - from + 1);
            }
            return None;
        }
        acc = acc * 10 + d;
        i = i + 1;
    }
    assert(s.subrange(0, to - from) =~= s);
    Some(acc)
}

/// A digit run's value never falls as digits are added.
proof fn lemma_digits_grow(s: Seq<char>, k: int)
    requires
        0 <= k <= s.len(),
        all_digits(s),
    ensures
        digits_value(s) >= digits_value(s.subrange(0, k)),
        digits_value(s.subrange(0, k)) >= 0,
    decreases s.len(),
{
    if s.len() == 0 {
        assert(s.subrange(0, k) =~= s);
    } else if k == s.len() {
        assert(s.subrange(0, k) =~= s);
        lemma_digits_grow(s.drop_last(), 0);
    } else {
        assert(all_digits(s.drop_last()));
        lemma_digits_grow(s.drop_last(), k);
        assert(s.drop_last().subrange(0, k) =~= s.subrange(0, k));
    }
}

fn check_digits(chars: &Vec<char>, from: usize, to: usize) -> (r: bool)
    requires
        from <= to <= chars.len(),
    ensures
        r == all_digits(chars@.subrange(from as int, to as int)),
{
    let mut i: usize = from;
    while i < to
        invariant
            from <= i <= to <= chars.len(),
            forall|j: int| from <= j < i ==> '0' <= #[trigger] chars@[j] && chars@[j] <= '9',
        decreases to - i,
    {
        if !('0' <= chars[i] && chars[i] <= '9') {
            assert(chars@.subrange(from as int, to as int)[i - from] == chars@[i as int]);
            return false;
        }
        i = i + 1;
    }
    assert forall|j: int| 0 <= j < to - from implies '0' <= #[trigger] chars@.subrange(
        from as int,
        to as int,
    )[j] && chars@.subrange(from as int, to as int)[j] <= '9' by {
        assert(chars@.subrange(from as int, to as int)[j] == chars@[from + j]);
    }
    true
}

/// Reads the numeric literal that starts at `begin`: the longest run of
/// literal characters, which must be an optional `-` and digits.
pub fn read_num(chars: &Vec<char>, begin: usize) -> (r: Result<(Token, usize), LexError>)
    requires
        begin < chars.len(),
    ensures
        match r {
            Ok((t, end)) => {
                &&& run_end_ok(chars@, begin as int, end as int, true)
                &&& match t {
                    Token::Number(v) => literal_value(chars@.subrange(begin as int, end as int))
                        == Some(v as int) && v > i64::MIN,
                    _ => false,
                }
            },
            Err(e) => e == LexError::BadNumber(begin) && (exists|end: int|
                run_end_ok(chars@, begin as int, end, true)) && forall|end: int|
                run_end_ok(chars@, begin as int, end, true) ==> match literal_value(
                    chars@.subrange(begin as int, end),
                ) {
                    Some(v) => v < -(i64::MAX as int) || v > i64::MAX,
                    None => true,
                },
        },
{
    let end = run_end(chars, begin, true);
    proof {
        lemma_run_end_unique(chars@, begin as int, end as int, true);
    }
    let ghost text = chars@.subrange(begin as int, end as int);
    let negative = chars[begin] == '-';
    let from = if negative {
        begin + 1
    } else {
        begin
    };
    proof {
        assert(chars@.subrange(from as int, end as int) =~= if negative {
            text.drop_first()
        } else {
            text
        });
    }
    if from == end || !check_digits(chars, from, end) {
        assert(literal_value(text) is None);
        return Err(LexError::BadNumber(begin));
    }
    match parse_digits(chars, from, end) {
        Some(v) => {
            let n: i64 = if negative {
                -v
            } else {
                v
            };
            assert(literal_value(text) == Some(n as int));
            Ok((Token::Number(n), end))
        },
        None => {
            assert(literal_value(text) is Some);
            Err(LexError::BadNumber(begin))
        },
    }
}

proof fn lemma_run_end_unique(s: Seq<char>, begin: int, end: int, num: bool)
    requires
        run_end_ok(s, begin, end, num),
    ensures
        forall|e: int| run_end_ok(s, begin, e, num) ==> e == end,
{
    assert forall|e: int| run_end_ok(s, begin, e, num) implies e == end by {
        if e < end {
            assert(begin < e < end);
        } else if e > end {
            assert(begin < end < e);
        }
    }
}

/// The reserved word spelled by `s`, if any.
pub open spec fn reserved_word(s: Seq<char>) -> Option<Reserved> {
    if s == "function"@ {
        Some(Reserved::Function)
    } else if s == "let"@ {
        Some(Reserved::Let)
    } else if s == "if"@ {
        Some(Reserved::If)
    } else if s == "else"@ {
        Some(Reserved::Else)
    } else if s == "true"@ {
        Some(Reserved::True)
    } else if s == "false"@ {
        Some(Reserved::False)
    } else if s == "return"@ {
        Some(Reserved::Return)
    } else {
        None
    }
}

/// `t` is the token for the word `w`: its reserved word, or else an
/// identifier spelled `w`.
pub open spec fn word_token(t: Token, w: Seq<char>) -> bool {
    match t {
        Token::Reserved(r) => reserved_word(w) == Some(r),
        Token::Identifier(id) => reserved_word(w) is None && id@ == w,
        _ => false,
    }
}

/// The token of a reserved word, if `s` is one.
pub fn read_reserved(s: &String) -> (r: Option<Token>)
    ensures
        r == match reserved_word(s@) {
            Some(w) => Some(Token::Reserved(w)),
            None => None,
        },
{
    if *s == String::from_str("function") {
        Some(Token::Reserved(Reserved::Function))
    } else if *s == String::from_str("let") {
        Some(Token::Reserved(Reserved::Let))
    } else if *s == String::from_str("if") {
        Some(Token::Reserved(Reserved::If))
    } else if *s == String::from_str("else") {
        Some(Token::Reserved(Reserved::Else))
    } else if *s == String::from_str("true") {
        Some(Token::Reserved(Reserved::True))
    } else if *s == String::from_str("false") {
        Some(Token::Reserved(Reserved::False))
    } else if *s == String::from_str("return") {
        Some(Token::Reserved(Reserved::Return))
    } else {
        None
    }
}

/// Reads the identifier or reserved word that starts at `begin`.
pub fn read_id(source: &str, chars: &Vec<char>, begin: usize) -> (r: (Token, usize))
    requires
        chars@ == source@,
        begin < chars.len(),
    ensures
        run_end_ok(chars@, begin as int, r.1 as int, false),
        word_token(r.0, chars@.subrange(begin as int, r.1 as int)),
{
    let end = run_end(chars, begin, false);
    let text = String::from_str(source.substring_char(begin, end));
    match read_reserved(&text) {
        Some(t) => (t, end),
        None => (Token::Identifier(text), end),
    }
}

/// Whether `t` closes an operand, so that a `-` after it is subtraction.
pub open spec fn ends_operand(t: TokenView) -> bool {
    match t {
        TokenView::Number(_) | TokenView::Str(_) | TokenView::Identifier(_)
        | TokenView::RightParenthesis | TokenView::Reserved(Reserved::True) | TokenView::Reserved(
            Reserved::False,
        ) => true,
        _ => false,
    }
}

fn closes_operand(t: &Token) -> (r: bool)
    ensures
        r == ends_operand(t@),
{
    match t {
        Token::Number(_) | Token::String(_) | Token::Identifier(_) | Token::RightParenthesis
        | Token::Reserved(Reserved::True) | Token::Reserved(Reserved::False) => true,
        _ => false,
    }
}

/// Whether `c` is skipped between tokens.
pub open spec fn blank(c: char) -> bool {
    c == ' ' || c == '\t' || c == ';' || c == '\n' || c == '\r'
}

/// `e` is the first `"` after position `open`.
pub open spec fn closing_quote(s: Seq<char>, open: int, e: int) -> bool {
    &&& open < e < s.len()
    &&& s[e] == '"'
    &&& forall|j: int| open < j < e ==> s[j] != '"'
}

/// The end of the run of literal (`num`) or identifier characters after
/// `begin`.
pub open spec fn run_end_of(s: Seq<char>, begin: int, num: bool) -> int {
    choose|e: int| run_end_ok(s, begin, e, num)
}

pub open spec fn word_view(w: Seq<char>) -> TokenView {
    match reserved_word(w) {
        Some(r) => TokenView::Reserved(r),
        None => TokenView::Identifier(w),
    }
}

/// `t` followed by the tokens of `rest`, or the error of `rest`.
pub open spec fn then_lex(t: TokenView, rest: Result<Seq<TokenView>, LexError>) -> Result<
    Seq<TokenView>,
    LexError,
> {
    match rest {
        Ok(ts) => Ok(seq![t] + ts),
        Err(e) => Err(e),
    }
}

/// The tokens of `s` from position `cur` on, where `prev` is the token
/// before `cur`. This is the lexical grammar, one case per first character.
pub open spec fn lex_from(s: Seq<char>, cur: int, prev: Option<TokenView>) -> Result<
    Seq<TokenView>,
    LexError,
>
    decreases s.len() - cur,
{
    if cur < 0 || cur >= s.len() {
        Ok(Seq::empty())
    } else {
        let c = s[cur];
        if blank(c) {
            lex_from(s, cur + 1, prev)
        } else if c == '{' {
            then_lex(TokenView::LeftBrace, lex_from(s, cur + 1, Some(TokenView::LeftBrace)))
        } else if c == '}' {
            then_lex(TokenView::RightBrace, lex_from(s, cur + 1, Some(TokenView::RightBrace)))
        } else if c == '(' {
            then_lex(
                TokenView::LeftParenthesis,
                lex_from(s, cur + 1, Some(TokenView::LeftParenthesis)),
            )
        } else if c == ')' {
            then_lex(
                TokenView::RightParenthesis,
                lex_from(s, cur + 1, Some(TokenView::RightParenthesis)),
            )
        } else if c == ',' {
            then_lex(TokenView::Comma, lex_from(s, cur + 1, Some(TokenView::Comma)))
        } else if c == '=' {
            if cur + 1 < s.len() && s[cur + 1] == '=' {
                then_lex(TokenView::Equal, lex_from(s, cur + 2, Some(TokenView::Equal)))
            } else {
                then_lex(TokenView::Assign, lex_from(s, cur + 1, Some(TokenView::Assign)))
            }
        } else if c == '"' {
            if exists|e: int| closing_quote(s, cur, e) {
                let e = choose|e: int| closing_quote(s, cur, e);
                let t = TokenView::Str(s.subrange(cur + 1, e));
                then_lex(t, lex_from(s, e + 1, Some(t)))
            } else {
                Err(LexError::UnclosedString(cur as usize))
            }
        } else if c == '+' {
            then_lex(TokenView::OpsAdd, lex_from(s, cur + 1, Some(TokenView::OpsAdd)))
        } else if c == '*' {
            then_lex(TokenView::OpsMul, lex_from(s, cur + 1, Some(TokenView::OpsMul)))
        } else if c == '/' {
            then_lex(TokenView::OpsDiv, lex_from(s, cur + 1, Some(TokenView::OpsDiv)))
        } else if c == '-' && !(cur + 1 < s.len() && num_char(s[cur + 1], false) && !(prev matches Some(
            p,
        ) && ends_operand(p))) {
            then_lex(TokenView::OpsSub, lex_from(s, cur + 1, Some(TokenView::OpsSub)))
        } else if num_char(c, true) || id_char(c, true) {
            let num = num_char(c, true);
            if exists|e: int| run_end_ok(s, cur, e, num) {
                let e = run_end_of(s, cur, num);
                if num {
                    match literal_value(s.subrange(cur, e)) {
                        Some(v) => if -(i64::MAX as int) <= v <= i64::MAX {
                            let t = TokenView::Number(v as i64);
                            then_lex(t, lex_from(s, e, Some(t)))
                        } else {
                            Err(LexError::BadNumber(cur as usize))
                        },
                        None => Err(LexError::BadNumber(cur as usize)),
                    }
                } else {
                    let t = word_view(s.subrange(cur, e));
                    then_lex(t, lex_from(s, e, Some(t)))
                }
            } else {
                Ok(Seq::empty())
            }
        } else {
            Err(LexError::UnexpectedChar(c, cur as usize))
        }
    }
}

/// The tokens of a whole text.
pub open spec fn lex(s: Seq<char>) -> Result<Seq<TokenView>, LexError> {
    lex_from(s, 0, None)
}

pub open spec fn token_views(ts: Seq<Token>) -> Seq<TokenView> {
    ts.map_values(|t: Token| t@)
}

/// `done` followed by the tokens of `rest`, or the error of `rest`.
pub open spec fn after(done: Seq<TokenView>, rest: Result<Seq<TokenView>, LexError>) -> Result<
    Seq<TokenView>,
    LexError,
> {
    match rest {
        Ok(ts) => Ok(done + ts),
        Err(e) => Err(e),
    }
}

pub open spec fn last_view(ts: Seq<Token>) -> Option<TokenView> {
    if ts.len() == 0 {
        None
    } else {
        Some(ts.last()@)
    }
}

proof fn lemma_after_push(done: Seq<Token>, t: Token, rest: Result<Seq<TokenView>, LexError>)
    ensures
        after(token_views(done), then_lex(t@, rest)) == after(token_views(done.push(t)), rest),
        last_view(done.push(t)) == Some(t@),
{
    assert(token_views(done.push(t)) =~= token_views(done).push(t@));
    if let Ok(ts) = rest {
        assert(token_views(done) + (seq![t@] + ts) =~= token_views(done).push(t@) + ts);
    }
}

fn to_chars(source: &str) -> (chars: Vec<char>)
    ensures
        chars@ == source@,
{
    let n = source.unicode_len();
    let mut chars: Vec<char> = Vec::new();
    let mut i: usize = 0;
    while i < n
        invariant
            n == source@.len(),
            i <= n,
            chars@ == source@.subrange(0, i as int),
        decreases n - i,
    {
        chars.push(source.get_char(i));
        i = i + 1;
    }
    assert(chars@ =~= source@);
    chars
}

/// Splits `source` into tokens. Blanks and `;` separate tokens and are
/// dropped. A `-` directly followed by a literal character begins a negative
/// literal unless the token before it closes an operand (a literal, a name,
/// `true`, `false` or `)`), in which case it is subtraction: `a-1` and
/// `a - 1` both subtract, `f(-1)` passes a negative literal.
pub fn tokenize(source: &str) -> (r: Result<Vec<Token>, LexError>)
    ensures
        lex(source@) == match r {
            Ok(tokens) => Ok(token_views(tokens@)),
            Err(e) => Err::<Seq<TokenView>, LexError>(e),
        },
{
    let chars = to_chars(source);
    let mut result: Vec<Token> = Vec::new();
    let mut cursor: usize = 0;
    while cursor < chars.len()
        invariant
            chars@ == source@,
            cursor <= chars.len(),
            lex(source@) == after(
                token_views(result@),
                lex_from(source@, cursor as int, last_view(result@)),
            ),
        decreases chars.len() - cursor,
    {
        let c = chars[cursor];
        let ghost done = result@;
        let ghost prev = last_view(result@);
        if c == ' ' || c == '\t' || c == ';' || c == '\n' || c == '\r' {
            cursor = cursor + 1;
        } else if c == '{' || c == '}' || c == '(' || c == ')' || c == ',' || c == '+' || c == '*'
            || c == '/' {
            let t = if c == '{' {
                Token::LeftBrace
            } else if c == '}' {
                Token::RightBrace
            } else if c == '(' {
                Token::LeftParenthesis
            } else if c == ')' {
                Token::RightParenthesis
            } else if c == ',' {
                Token::Comma
            } else if c == '+' {
                Token::OpsAdd
            } else if c == '*' {
                Token::OpsMul
            } else {
                Token::OpsDiv
            };
            proof {
                lemma_after_push(done, t, lex_from(source@, cursor + 1, Some(t@)));
            }
            result.push(t);
            cursor = cursor + 1;
        } else if c == '=' {
            if cursor + 1 < chars.len() && chars[cursor + 1] == '=' {
                proof {
                    lemma_after_push(done, Token::Equal, lex_from(source@, cursor + 2, Some(TokenView::Equal)));
                }
                result.push(Token::Equal);
                cursor = cursor + 2;
            } else {
                proof {
                    lemma_after_push(done, Token::Assign, lex_from(source@, cursor + 1, Some(TokenView::Assign)));
                }
                result.push(Token::Assign);
                cursor = cursor + 1;
            }
        } else if c == '"' {
            let mut end = cursor + 1;
            while end < chars.len() && chars[end] != '"'
                invariant
                    cursor < end <= chars.len(),
                    forall|j: int| cursor < j < end ==> chars@[j] != '"',
                decreases chars.len() - end,
            {
                end = end + 1;
            }
            if end == chars.len() {
                proof {
                    assert forall|e: int| !closing_quote(source@, cursor as int, e) by {
                        if cursor < e < source@.len() {
                            assert(source@[e] != '"');
                        }
                    }
                }
                return Err(LexError::UnclosedString(cursor));
            }
            let text = String::from_str(source.substring_char(cursor + 1, end));
            let t = Token::String(text);
            proof {
                assert(closing_quote(source@, cursor as int, end as int));
                let e = choose|e: int| closing_quote(source@, cursor as int, e);
                if e < end {
                    assert(source@[e] == '"');
                } else if e > end {
                    assert(source@[end as int] == '"');
                }
                assert(e == end);
                lemma_after_push(done, t, lex_from(source@, end + 1, Some(t@)));
            }
            result.push(t);
            cursor = end + 1;
        } else if c == '-' && !(cursor + 1 < chars.len() && is_num(chars[cursor + 1], false) && (
        result.len() == 0 || !closes_operand(&result[result.len() - 1]))) {
            proof {
                lemma_after_push(done, Token::OpsSub, lex_from(source@, cursor + 1, Some(TokenView::OpsSub)));
            }
            result.push(Token::OpsSub);
            cursor = cursor + 1;
        } else if is_num(c, true) {
            match read_num(&chars, cursor) {
                Ok((t, end)) => {
                    proof {
                        lemma_run_end_unique(source@, cursor as int, end as int, true);
                        assert(run_end_of(source@, cursor as int, true) == end);
                        lemma_after_push(done, t, lex_from(source@, end as int, Some(t@)));
                    }
                    result.push(t);
                    cursor = end;
                },
                Err(e) => {
                    return Err(e);
                },
            }
        } else if is_id(c, true) {
            let (t, end) = read_id(source, &chars, cursor);
            proof {
                lemma_run_end_unique(source@, cursor as int, end as int, false);
                assert(run_end_of(source@, cursor as int, false) == end);
                lemma_after_push(done, t, lex_from(source@, end as int, Some(t@)));
            }
            result.push(t);
            cursor = end;
        } else {
            return Err(LexError::UnexpectedChar(c, cursor));
        }
    }
    proof {
        assert(token_views(result@) + Seq::<TokenView>::empty() =~= token_views(result@));
    }
    Ok(result)
}

} // verus!
