//! The lexer: from program text to tokens.

use vstd::prelude::*;

verus! {

/// A lexical token.
#[derive(Debug, Clone, PartialEq, Eq)]
pub enum Token {
    Id(String),
    Int(usize),
    Str(String),
    Variable(String),
    Comma,
    Dot,
    OpenParen,
    CloseParen,
    BackArrow,
    OpenSqBrace,
    CloseSqBrace,
    Underscore,
    Eq,
    GreaterThan,
    LessThan,
    GreaterThanEqual,
    LessThanEqual,
}

/// The mathematical model of a token.
pub enum Symbol {
    /// An identifier: a letter, then letters, digits and underscores.
    Id(Seq<char>),
    /// An integer literal.
    Int(nat),
    /// A string literal, without its quotes.
    Str(Seq<char>),
    /// A variable, without its question mark.
    Variable(Seq<char>),
    Comma,
    Dot,
    OpenParen,
    CloseParen,
    BackArrow,
    OpenSqBrace,
    CloseSqBrace,
    Underscore,
    Eq,
    GreaterThan,
    LessThan,
    GreaterThanEqual,
    LessThanEqual,
}

/// Why a text is not a program.
#[derive(Debug, Clone, Copy, PartialEq, Eq, Structural)]
pub enum LexError {
    /// A character that starts no token.
    UnrecognizedCharacter,
    /// A string literal without its closing quote.
    UnterminatedString,
    /// An integer literal above `usize::MAX`.
    IntegerOutOfRange,
}

impl View for Token {
    type V = Symbol;

    open spec fn view(&self) -> Symbol {
        match self {
            Token::Id(name) => Symbol::Id(name@),
            Token::Int(n) => Symbol::Int(*n as nat),
            Token::Str(text) => Symbol::Str(text@),
            Token::Variable(name) => Symbol::Variable(name@),
            Token::Comma => Symbol::Comma,
            Token::Dot => Symbol::Dot,
            Token::OpenParen => Symbol::OpenParen,
            Token::CloseParen => Symbol::CloseParen,
            Token::BackArrow => Symbol::BackArrow,
            Token::OpenSqBrace => Symbol::OpenSqBrace,
            Token::CloseSqBrace => Symbol::CloseSqBrace,
            Token::Underscore => Symbol::Underscore,
            Token::Eq => Symbol::Eq,
            Token::GreaterThan => Symbol::GreaterThan,
            Token::LessThan => Symbol::LessThan,
            Token::GreaterThanEqual => Symbol::GreaterThanEqual,
            Token::LessThanEqual => Symbol::LessThanEqual,
        }
    }
}

impl Token {
    /// The symbols that a sequence of tokens stands for, one for one.
    pub open spec fn views(tokens: Seq<Token>) -> Seq<Symbol> {
        Seq::new(tokens.len(), |i: int| tokens[i]@)
    }

    pub fn as_id(&self) -> (r: Option<String>)
        ensures
            match r {
                Some(name) => self@ == Symbol::Id(name@),
                None => !(self@ is Id),
            },
    {
        match self {
            Token::Id(name) => Some(name.clone()),
            _ => None,
        }
    }

    pub fn as_eq(&self) -> (r: Option<()>)
        ensures
            r.is_some() == (self@ is Eq),
    {
        match self {
            Token::Eq => Some(()),
            _ => None,
        }
    }

    pub fn as_greater_than(&self) -> (r: Option<()>)
        ensures
            r.is_some() == (self@ is GreaterThan),
    {
        match self {
            Token::GreaterThan => Some(()),
            _ => None,
        }
    }

    pub fn as_less_than(&self) -> (r: Option<()>)
        ensures
            r.is_some() == (self@ is LessThan),
    {
        match self {
            Token::LessThan => Some(()),
            _ => None,
        }
    }

    pub fn as_greater_than_equal(&self) -> (r: Option<()>)
        ensures
            r.is_some() == (self@ is GreaterThanEqual),
    {
        match self {
            Token::GreaterThanEqual => Some(()),
            _ => None,
        }
    }

    pub fn as_less_than_equal(&self) -> (r: Option<()>)
        ensures
            r.is_some() == (self@ is LessThanEqual),
    {
        match self {
            Token::LessThanEqual => Some(()),
            _ => None,
        }
    }

    pub fn as_open_square_brace(&self) -> (r: Option<()>)
        ensures
            r.is_some() == (self@ is OpenSqBrace),
    {
        match self {
            Token::OpenSqBrace => Some(()),
            _ => None,
        }
    }

    pub fn as_close_square_brace(&self) -> (r: Option<()>)
        ensures
            r.is_some() == (self@ is CloseSqBrace),
    {
        match self {
            Token::CloseSqBrace => Some(()),
            _ => None,
        }
    }

    pub fn as_int(&self) -> (r: Option<usize>)
        ensures
            match r {
                Some(n) => self@ == Symbol::Int(n as nat),
                None => !(self@ is Int),
            },
    {
        match self {
            Token::Int(val) => Some(*val),
            _ => None,
        }
    }

    pub fn as_variable(&self) -> (r: Option<String>)
        ensures
            match r {
                Some(name) => self@ == Symbol::Variable(name@),
                None => !(self@ is Variable),
            },
    {
        match self {
            Token::Variable(name) => Some(name.clone()),
            _ => None,
        }
    }

    pub fn as_str(&self) -> (r: Option<String>)
        ensures
            match r {
                Some(text) => self@ == Symbol::Str(text@),
                None => !(self@ is Str),
            },
    {
        match self {
            Token::Str(val) => Some(val.clone()),
            _ => None,
        }
    }

    pub fn as_comma(&self) -> (r: Option<()>)
        ensures
            r.is_some() == (self@ is Comma),
    {
        match self {
            Token::Comma => Some(()),
            _ => None,
        }
    }

    pub fn as_open_paren(&self) -> (r: Option<()>)
        ensures
            r.is_some() == (self@ is OpenParen),
    {
        match self {
            Token::OpenParen => Some(()),
            _ => None,
        }
    }

    pub fn as_close_paren(&self) -> (r: Option<()>)
        ensures
            r.is_some() == (self@ is CloseParen),
    {
        match self {
            Token::CloseParen => Some(()),
            _ => None,
        }
    }

    pub fn as_dot(&self) -> (r: Option<()>)
        ensures
            r.is_some() == (self@ is Dot),
    {
        match self {
            Token::Dot => Some(()),
            _ => None,
        }
    }

    pub fn as_back_arrow(&self) -> (r: Option<()>)
        ensures
            r.is_some() == (self@ is BackArrow),
    {
        match self {
            Token::BackArrow => Some(()),
            _ => None,
        }
    }

    pub fn as_underscore(&self) -> (r: Option<()>)
        ensures
            r.is_some() == (self@ is Underscore),
    {
        match self {
            Token::Underscore => Some(()),
            _ => None,
        }
    }
}

/// Whether `c` is alphanumeric, as `char::is_alphanumeric` judges it.
pub uninterp spec fn alphanumeric(c: char) -> bool;

/// Whether `c` is an ASCII letter.
pub open spec fn is_letter(c: char) -> bool {
    ('a' <= c && c <= 'z') || ('A' <= c && c <= 'Z')
}

/// Whether `c` is an ASCII digit.
pub open spec fn is_digit(c: char) -> bool {
    '0' <= c && c <= '9'
}

/// Whether `c` may follow the first character of an identifier.
pub open spec fn is_word(c: char) -> bool {
    alphanumeric(c) || c == '_'
}

/// The end of the longest run of ASCII digits that starts at `i`.
pub open spec fn digits_end(text: Seq<char>, i: nat) -> nat
    decreases text.len() - i,
{
    if i < text.len() && is_digit(text[i as int]) {
        digits_end(text, i + 1)
    } else {
        i
    }
}

/// The end of the longest run of alphanumeric characters that starts at `i`.
pub open spec fn name_end(text: Seq<char>, i: nat) -> nat
    decreases text.len() - i,
{
    if i < text.len() && alphanumeric(text[i as int]) {
        name_end(text, i + 1)
    } else {
        i
    }
}

/// The end of the longest run of alphanumeric characters and underscores that
/// starts at `i`.
pub open spec fn word_end(text: Seq<char>, i: nat) -> nat
    decreases text.len() - i,
{
    if i < text.len() && is_word(text[i as int]) {
        word_end(text, i + 1)
    } else {
        i
    }
}

/// The position of the first double quote at or after `i`; `text.len()` if
/// there is none.
pub open spec fn quote_at(text: Seq<char>, i: nat) -> nat
    decreases text.len() - i,
{
    if i < text.len() && text[i as int] != '"' {
        quote_at(text, i + 1)
    } else {
        i
    }
}

/// The number that a sequence of ASCII digits writes in base ten.
pub open spec fn decimal(digits: Seq<char>) -> nat
    decreases digits.len(),
{
    if digits.len() == 0 {
        0
    } else {
        (decimal(digits.drop_last()) * 10 + (digits.last() as nat - '0' as nat)) as nat
    }
}

/// What stands at one position of a text.
pub enum Scan {
    /// One blank character.
    Blank,
    /// A token, and the position after it.
    Found(Symbol, nat),
    /// Nothing that a program may hold.
    Bad(LexError),
}

/// What stands at position `i` of `text`, for `i < text.len()`.
///
/// A space and a line feed are blank. The punctuation is `( ) [ ] , . _ =`,
/// `:-`, and `<`, `>`, each taken with a following `=`. A digit starts an
/// integer, which runs as far as digits go. `?` starts a variable, whose name
/// runs as far as alphanumeric characters go and may be empty. A double quote
/// starts a string, which runs to the next double quote. A letter starts an
/// identifier, which runs as far as alphanumeric characters and underscores go.
pub open spec fn scan(text: Seq<char>, i: nat) -> Scan {
    let c = text[i as int];
    let followed_by = |d: char| i + 1 < text.len() && text[i as int + 1] == d;
    if c == ' ' || c == '\n' {
        Scan::Blank
    } else if c == '(' {
        Scan::Found(Symbol::OpenParen, i + 1)
    } else if c == '_' {
        Scan::Found(Symbol::Underscore, i + 1)
    } else if c == ')' {
        Scan::Found(Symbol::CloseParen, i + 1)
    } else if c == '=' {
        Scan::Found(Symbol::Eq, i + 1)
    } else if c == '.' {
        Scan::Found(Symbol::Dot, i + 1)
    } else if c == ',' {
        Scan::Found(Symbol::Comma, i + 1)
    } else if c == ':' && followed_by('-') {
        Scan::Found(Symbol::BackArrow, i + 2)
    } else if c == '[' {
        Scan::Found(Symbol::OpenSqBrace, i + 1)
    } else if c == ']' {
        Scan::Found(Symbol::CloseSqBrace, i + 1)
    } else if c == '>' {
        if followed_by('=') {
            Scan::Found(Symbol::GreaterThanEqual, i + 2)
        } else {
            Scan::Found(Symbol::GreaterThan, i + 1)
        }
    } else if c == '<' {
        if followed_by('=') {
            Scan::Found(Symbol::LessThanEqual, i + 2)
        } else {
            Scan::Found(Symbol::LessThan, i + 1)
        }
    } else if is_digit(c) {
        let end = digits_end(text, i);
        let value = decimal(text.subrange(i as int, end as int));
        if value <= usize::MAX {
            Scan::Found(Symbol::Int(value), end)
        } else {
            Scan::Bad(LexError::IntegerOutOfRange)
        }
    } else if c == '?' {
        let end = name_end(text, i + 1);
        Scan::Found(Symbol::Variable(text.subrange(i as int + 1, end as int)), end)
    } else if c == '"' {
        let end = quote_at(text, i + 1);
        if end < text.len() {
            Scan::Found(Symbol::Str(text.subrange(i as int + 1, end as int)), end + 1)
        } else {
            Scan::Bad(LexError::UnterminatedString)
        }
    } else if is_letter(c) {
        let end = word_end(text, i + 1);
        Scan::Found(Symbol::Id(text.subrange(i as int, end as int)), end)
    } else {
        Scan::Bad(LexError::UnrecognizedCharacter)
    }
}

/// A run ends between its start and the end of the text.
pub proof fn lemma_run_ends(text: Seq<char>, i: nat)
    requires
        i <= text.len(),
    ensures
        i <= digits_end(text, i) <= text.len(),
        i <= name_end(text, i) <= text.len(),
        i <= word_end(text, i) <= text.len(),
        i <= quote_at(text, i) <= text.len(),
    decreases text.len() - i,
{
    if i < text.len() {
        lemma_run_ends(text, i + 1);
    }
}

/// A token ends after its start and within the text.
pub proof fn lemma_scan_advances(text: Seq<char>, i: nat)
    requires
        i < text.len(),
    ensures
        scan(text, i) matches Scan::Found(_, next) ==> i < next <= text.len(),
{
    lemma_run_ends(text, i);
    lemma_run_ends(text, i + 1);
}

/// The tokens of `text` from position `i` on, or why it has none.
pub open spec fn lex_from(text: Seq<char>, i: nat) -> Result<Seq<Symbol>, LexError>
    decreases text.len() - i,
{
    if i >= text.len() {
        Ok(Seq::empty())
    } else {
        match scan(text, i) {
            Scan::Bad(e) => Err(e),
            Scan::Blank => lex_from(text, i + 1),
            Scan::Found(symbol, next) => {
                proof {
                    lemma_scan_advances(text, i);
                }
                match lex_from(text, next) {
                    Ok(rest) => Ok(seq![symbol] + rest),
                    Err(e) => Err(e),
                }
            },
        }
    }
}

/// The tokens of `text`, or why it is no program.
pub open spec fn lex(text: Seq<char>) -> Result<Seq<Symbol>, LexError> {
    lex_from(text, 0)
}

/// `char::is_alphanumeric`: whether `c` is alphanumeric. The contract only
/// gives the answer its name.
#[verifier::external_body]
fn is_alphanumeric(c: char) -> (b: bool)
    ensures
        b == alphanumeric(c),
{
    c.is_alphanumeric()
}

/// `String::push`: appends `c` to the end of `text`.
#[verifier::external_body]
fn push_char(text: &mut String, c: char)
    ensures
        final(text)@ == old(text)@.push(c),
{
    text.push(c)
}

/// The characters of `text`, in order.
fn characters(text: &str) -> (out: Vec<char>)
    ensures
        out@ == text@,
{
    let mut out: Vec<char> = Vec::new();
    for c in it: text.chars()
        invariant
            it.seq() == text@,
            out@ == it.seq().take(it.index() as int),
    {
        out.push(c);
        assert(it.seq().take(it.index() + 1) =~= it.seq().take(it.index() as int).push(c));
    }
    assert(text@.take(text@.len() as int) =~= text@);
    out
}

/// The string of the characters `text[from..to]`.
fn slice_string(text: &Vec<char>, from: usize, to: usize) -> (out: String)
    requires
        from <= to <= text.len(),
    ensures
        out@ == text@.subrange(from as int, to as int),
{
    let mut out = String::new();
    let mut k: usize = from;
    while k < to
        invariant
            from <= k <= to <= text.len(),
            out@ == text@.subrange(from as int, k as int),
        decreases to - k,
    {
        push_char(&mut out, text[k]);
        assert(text@.subrange(from as int, k + 1) =~= text@.subrange(from as int, k as int).push(
            text@[k as int],
        ));
        k += 1;
    }
    out
}

fn digit(c: char) -> (b: bool)
    ensures
        b == is_digit(c),
{
    '0' <= c && c <= '9'
}

fn letter(c: char) -> (b: bool)
    ensures
        b == is_letter(c),
{
    ('a' <= c && c <= 'z') || ('A' <= c && c <= 'Z')
}

fn find_digits_end(text: &Vec<char>, i: usize) -> (end: usize)
    requires
        i <= text.len(),
    ensures
        end == digits_end(text@, i as nat),
        i <= end <= text.len(),
{
    let mut k: usize = i;
    while k < text.len() && digit(text[k])
        invariant
            i <= k <= text.len(),
            digits_end(text@, k as nat) == digits_end(text@, i as nat),
        decreases text.len() - k,
    {
        k += 1;
    }
    k
}

fn find_name_end(text: &Vec<char>, i: usize) -> (end: usize)
    requires
        i <= text.len(),
    ensures
        end == name_end(text@, i as nat),
        i <= end <= text.len(),
{
    let mut k: usize = i;
    while k < text.len() && is_alphanumeric(text[k])
        invariant
            i <= k <= text.len(),
            name_end(text@, k as nat) == name_end(text@, i as nat),
        decreases text.len() - k,
    {
        k += 1;
    }
    k
}

fn find_word_end(text: &Vec<char>, i: usize) -> (end: usize)
    requires
        i <= text.len(),
    ensures
        end == word_end(text@, i as nat),
        i <= end <= text.len(),
{
    let mut k: usize = i;
    while k < text.len() && (is_alphanumeric(text[k]) || text[k] == '_')
        invariant
            i <= k <= text.len(),
            word_end(text@, k as nat) == word_end(text@, i as nat),
        decreases text.len() - k,
    {
        k += 1;
    }
    k
}

fn find_quote(text: &Vec<char>, i: usize) -> (end: usize)
    requires
        i <= text.len(),
    ensures
        end == quote_at(text@, i as nat),
        i <= end <= text.len(),
{
    let mut k: usize = i;
    while k < text.len() && text[k] != '"'
        invariant
            i <= k <= text.len(),
            quote_at(text@, k as nat) == quote_at(text@, i as nat),
        decreases text.len() - k,
    {
        k += 1;
    }
    k
}

/// A number is at least the number that any of its leading digits write.
proof fn lemma_decimal_grows(digits: Seq<char>, n: int)
    requires
        0 <= n <= digits.len(),
        forall|k: int| 0 <= k < digits.len() ==> is_digit(#[trigger] digits[k]),
    ensures
        decimal(digits.take(n)) <= decimal(digits),
    decreases digits.len() - n,
{
    if n < digits.len() {
        lemma_decimal_grows(digits, n + 1);
        assert(digits.take(n + 1).drop_last() =~= digits.take(n));
    } else {
        assert(digits.take(n) =~= digits);
    }
}

/// The number that the digits `text[from..to]` write, if it fits.
fn read_decimal(text: &Vec<char>, from: usize, to: usize) -> (r: Option<usize>)
    requires
        from <= to <= text.len(),
        forall|k: int| from <= k < to ==> is_digit(#[trigger] text@[k]),
    ensures
        match r {
            Some(n) => n == decimal(text@.subrange(from as int, to as int)),
            None => decimal(text@.subrange(from as int, to as int)) > usize::MAX,
        },
{
    let ghost digits = text@.subrange(from as int, to as int);
    let mut value: usize = 0;
    let mut k: usize = from;
    while k < to
        invariant
            from <= k <= to <= text.len(),
            digits == text@.subrange(from as int, to as int),
            forall|j: int| 0 <= j < digits.len() ==> is_digit(#[trigger] digits[j]),
            value == decimal(digits.take(k - from)),
        decreases to - k,
    {
        assert(digits[k - from] == text@[k as int] && is_digit(digits[k - from]));
        let d: usize = (text[k] as u32 - '0' as u32) as usize;
        proof {
            assert(digits.take(k - from + 1).drop_last() =~= digits.take(k - from));
            assert(digits.take(k - from + 1).last() == text@[k as int]);
            lemma_decimal_grows(digits, k - from + 1);
        }
        let next = match value.checked_mul(10) {
            Some(tens) => tens.checked_add(d),
            None => None,
        };
        match next {
            Some(n) => {
                value = n;
            },
            None => {
                return None;
            },
        }
        k += 1;
    }
    assert(digits.take(to - from) =~= digits);
    Some(value)
}

/// What stands at position `i` of `text`: a token and the position after it,
/// or a blank.
fn scan_at(text: &Vec<char>, i: usize) -> (r: Result<(Option<Token>, usize), LexError>)
    requires
        i < text.len(),
    ensures
        match r {
            Ok((Some(token), next)) => scan(text@, i as nat) == Scan::Found(token@, next as nat),
            Ok((None, next)) => scan(text@, i as nat) == Scan::Blank && next == i + 1,
            Err(e) => scan(text@, i as nat) == Scan::Bad(e),
        },
{
    let c = text[i];
    let followed_by_dash = i + 1 < text.len() && text[i + 1] == '-';
    let followed_by_equals = i + 1 < text.len() && text[i + 1] == '=';
    if c == ' ' || c == '\n' {
        Ok((None, i + 1))
    } else if c == '(' {
        Ok((Some(Token::OpenParen), i + 1))
    } else if c == '_' {
        Ok((Some(Token::Underscore), i + 1))
    } else if c == ')' {
        Ok((Some(Token::CloseParen), i + 1))
    } else if c == '=' {
        Ok((Some(Token::Eq), i + 1))
    } else if c == '.' {
        Ok((Some(Token::Dot), i + 1))
    } else if c == ',' {
        Ok((Some(Token::Comma), i + 1))
    } else if c == ':' && followed_by_dash {
        Ok((Some(Token::BackArrow), i + 2))
    } else if c == '[' {
        Ok((Some(Token::OpenSqBrace), i + 1))
    } else if c == ']' {
        Ok((Some(Token::CloseSqBrace), i + 1))
    } else if c == '>' {
        if followed_by_equals {
            Ok((Some(Token::GreaterThanEqual), i + 2))
        } else {
            Ok((Some(Token::GreaterThan), i + 1))
        }
    } else if c == '<' {
        if followed_by_equals {
            Ok((Some(Token::LessThanEqual), i + 2))
        } else {
            Ok((Some(Token::LessThan), i + 1))
        }
    } else if digit(c) {
        let end = find_digits_end(text, i);
        proof {
            lemma_digits_run(text@, i as nat);
        }
        match read_decimal(text, i, end) {
            Some(n) => Ok((Some(Token::Int(n)), end)),
            None => Err(LexError::IntegerOutOfRange),
        }
    } else if c == '?' {
        let end = find_name_end(text, i + 1);
        Ok((Some(Token::Variable(slice_string(text, i + 1, end))), end))
    } else if c == '"' {
        let end = find_quote(text, i + 1);
        if end < text.len() {
            Ok((Some(Token::Str(slice_string(text, i + 1, end))), end + 1))
        } else {
            Err(LexError::UnterminatedString)
        }
    } else if letter(c) {
        let end = find_word_end(text, i + 1);
        Ok((Some(Token::Id(slice_string(text, i, end))), end))
    } else {
        Err(LexError::UnrecognizedCharacter)
    }
}

/// Every character of a run of digits is a digit.
proof fn lemma_digits_run(text: Seq<char>, i: nat)
    requires
        i <= text.len(),
    ensures
        forall|k: int| i <= k < digits_end(text, i) ==> is_digit(#[trigger] text[k]),
    decreases text.len() - i,
{
    if i < text.len() && is_digit(text[i as int]) {
        lemma_digits_run(text, i + 1);
    }
}

/// `rest` with the symbols `found` put in front of it.
spec fn prepend(found: Seq<Symbol>, rest: Result<Seq<Symbol>, LexError>) -> Result<
    Seq<Symbol>,
    LexError,
> {
    match rest {
        Ok(more) => Ok(found + more),
        Err(e) => Err(e),
    }
}

/// The outcome of lexing as symbols.
pub open spec fn lexed(r: Result<Vec<Token>, LexError>) -> Result<Seq<Symbol>, LexError> {
    match r {
        Ok(tokens) => Ok(Token::views(tokens@)),
        Err(e) => Err(e),
    }
}

/// The tokens of `program`, or why it is no program.
pub fn try_tokenize(program: &str) -> (r: Result<Vec<Token>, LexError>)
    ensures
        lexed(r) == lex(program@),
{
    let text = characters(program);
    let mut tokens: Vec<Token> = Vec::new();
    let mut i: usize = 0;
    assert(Token::views(tokens@) + lex_from(text@, 0)->Ok_0 =~= lex_from(text@, 0)->Ok_0);
    while i < text.len()
        invariant
            i <= text.len(),
            text@ == program@,
            prepend(Token::views(tokens@), lex_from(text@, i as nat)) == lex_from(text@, 0),
        decreases text.len() - i,
    {
        let ghost before = Token::views(tokens@);
        proof {
            lemma_scan_advances(text@, i as nat);
        }
        match scan_at(&text, i) {
            Err(e) => {
                return Err(e);
            },
            Ok((None, next)) => {
                i = next;
            },
            Ok((Some(token), next)) => {
                proof {
                    let rest = lex_from(text@, next as nat);
                    if rest is Ok {
                        assert(before.push(token@) + rest->Ok_0 =~= before + (seq![token@]
                            + rest->Ok_0));
                    }
                }
                tokens.push(token);
                assert(Token::views(tokens@) =~= before.push(token@));
                i = next;
            },
        }
    }
    assert(Token::views(tokens@) + Seq::<Symbol>::empty() =~= Token::views(tokens@));
    Ok(tokens)
}

/// The tokens of `program_string`, which must be a program.
pub fn tokenize(program_string: String) -> (tokens: Vec<Token>)
    requires
        lex(program_string@) is Ok,
    ensures
        lex(program_string@) == Ok::<Seq<Symbol>, LexError>(Token::views(tokens@)),
{
    match try_tokenize(program_string.as_str()) {
        Ok(tokens) => tokens,
        Err(_) => vstd::pervasive::unreached(),
    }
}

} // verus!
