//! The lexical scanner.
//!
//! A single left-to-right pass over the character sequence yields one
//! token per pull. Whitespace and structural characters end a buffered
//! run; a structural character that ended a run is returned as its own
//! token on the next pull; `#` starts a line comment that is discarded
//! up to the line terminator. A run left unfinished at end of input
//! yields nothing.
//!
//! The spec function [`scan`] states the result of one pull exactly and
//! [`tokens_from`] the whole remaining token sequence; [`Tokenizer::next_token`]
//! is proved equal to [`scan`].

use vstd::prelude::*;

verus! {

use crate::text::push_char;
use crate::text::chars_vec;

/// The closed set of token kinds.
///
/// Identifiers, numbers and strings carry their literal text; numbers
/// are not folded into a machine integer by the scanner, so that the
/// original digit text survives until emission. The comment, string
/// and call kinds are recognized forms that the scanner does not
/// produce today; the parser still rejects them deliberately where
/// they could appear.
#[derive(Debug, Clone, PartialEq)]
pub enum TokenType {
    IDENT(String),
    COMMENT,
    STRING(String),
    NUMBER(String),
    LeftBrace,
    RightBrace,
    COMMA,
    FnCall,
    LeftParenthesis,
    RightParenthesis,
    PLUS,
    MINUS,
    MULT,
    DIV,
    EQUAL,
    IF,
    LET,
    FOR,
}

/// Mathematical value of a [`TokenType`].
pub enum TokenTypeV {
    Ident(Seq<char>),
    Comment,
    StrLit(Seq<char>),
    Number(Seq<char>),
    LeftBrace,
    RightBrace,
    Comma,
    FnCall,
    LeftParen,
    RightParen,
    Plus,
    Minus,
    Mult,
    Div,
    Equal,
    KwIf,
    KwLet,
    KwFor,
}

impl View for TokenType {
    type V = TokenTypeV;

    open spec fn view(&self) -> TokenTypeV {
        match self {
            TokenType::IDENT(s) => TokenTypeV::Ident(s@),
            TokenType::COMMENT => TokenTypeV::Comment,
            TokenType::STRING(s) => TokenTypeV::StrLit(s@),
            TokenType::NUMBER(s) => TokenTypeV::Number(s@),
            TokenType::LeftBrace => TokenTypeV::LeftBrace,
            TokenType::RightBrace => TokenTypeV::RightBrace,
            TokenType::COMMA => TokenTypeV::Comma,
            TokenType::FnCall => TokenTypeV::FnCall,
            TokenType::LeftParenthesis => TokenTypeV::LeftParen,
            TokenType::RightParenthesis => TokenTypeV::RightParen,
            TokenType::PLUS => TokenTypeV::Plus,
            TokenType::MINUS => TokenTypeV::Minus,
            TokenType::MULT => TokenTypeV::Mult,
            TokenType::DIV => TokenTypeV::Div,
            TokenType::EQUAL => TokenTypeV::Equal,
            TokenType::IF => TokenTypeV::KwIf,
            TokenType::LET => TokenTypeV::KwLet,
            TokenType::FOR => TokenTypeV::KwFor,
        }
    }
}

/// One token: its kind and the span it covers in the source.
#[derive(Debug, Clone, PartialEq)]
pub struct Token {
    pub token_type: TokenType,
    pub start: usize,
    pub len: usize,
}

/// Mathematical value of a [`Token`].
pub struct TokenV {
    pub kind: TokenTypeV,
    pub start: int,
    pub len: int,
}

impl View for Token {
    type V = TokenV;

    open spec fn view(&self) -> TokenV {
        TokenV { kind: self.token_type@, start: self.start as int, len: self.len as int }
    }
}

/// The whitespace characters that end a buffered run and are skipped.
pub open spec fn is_space_char(c: char) -> bool {
    c == ' ' || c == '\n' || c == '\r' || c == '\t'
}

/// The structural and operator characters; each is a one-character token.
pub open spec fn is_structural_char(c: char) -> bool {
    ||| c == '='
    ||| c == ';'
    ||| c == '{'
    ||| c == '}'
    ||| c == '('
    ||| c == ')'
    ||| c == '+'
    ||| c == '-'
    ||| c == '*'
    ||| c == '/'
}

/// The kind of a one-character structural or operator token.
pub open spec fn structural_kind(c: char) -> TokenTypeV {
    if c == '=' {
        TokenTypeV::Equal
    } else if c == ';' {
        TokenTypeV::Comma
    } else if c == '{' {
        TokenTypeV::LeftBrace
    } else if c == '}' {
        TokenTypeV::RightBrace
    } else if c == '(' {
        TokenTypeV::LeftParen
    } else if c == ')' {
        TokenTypeV::RightParen
    } else if c == '+' {
        TokenTypeV::Plus
    } else if c == '-' {
        TokenTypeV::Minus
    } else if c == '*' {
        TokenTypeV::Mult
    } else {
        TokenTypeV::Div
    }
}

/// Whether `c` is a decimal digit.
pub open spec fn is_digit_char(c: char) -> bool {
    '0' as int <= c as int && c as int <= '9' as int
}

/// Whether every character of `text` is a decimal digit.
pub open spec fn all_digits(text: Seq<char>) -> bool {
    forall|i: int| 0 <= i < text.len() ==> is_digit_char(#[trigger] text[i])
}

/// The spelling of the `let` keyword.
pub open spec fn keyword_let() -> Seq<char> {
    seq!['l', 'e', 't']
}

/// The spelling of the `if` keyword.
pub open spec fn keyword_if() -> Seq<char> {
    seq!['i', 'f']
}

/// The spelling of the `for` keyword.
pub open spec fn keyword_for() -> Seq<char> {
    seq!['f', 'o', 'r']
}

/// Classifies a finalized run, in priority order: all digits make a
/// number; a reserved spelling makes its keyword; anything else is an
/// identifier.
pub open spec fn classify_run(text: Seq<char>) -> TokenTypeV {
    if text.len() > 0 && all_digits(text) {
        TokenTypeV::Number(text)
    } else if text == keyword_let() {
        TokenTypeV::KwLet
    } else if text == keyword_if() {
        TokenTypeV::KwIf
    } else if text == keyword_for() {
        TokenTypeV::KwFor
    } else {
        TokenTypeV::Ident(text)
    }
}

/// The token made of the buffered run `chars[s .. e]`.
pub open spec fn finish_run(chars: Seq<char>, s: int, e: int) -> TokenV {
    TokenV { kind: classify_run(chars.subrange(s, e)), start: s, len: e - s }
}

/// The result of one pull: the token found, if any, and the cursor
/// position at which the next pull starts.
pub struct ScanStep {
    pub token: Option<TokenV>,
    pub next: int,
}

/// One pull of the scanner, starting at cursor `i` with a buffered run
/// `run` (start and end positions) and the comment flag `in_comment`.
/// A pull always starts with no run and no comment; the other states
/// arise while the pull walks forward.
pub open spec fn scan(chars: Seq<char>, i: int, run: Option<(int, int)>, in_comment: bool) -> ScanStep
    decreases chars.len() - i,
{
    if i >= chars.len() {
        ScanStep { token: None, next: i }
    } else {
        let c = chars[i];
        if in_comment {
            if c == '\n' {
                match run {
                    Some((s, e)) => ScanStep { token: Some(finish_run(chars, s, e)), next: i + 1 },
                    None => scan(chars, i + 1, None, false),
                }
            } else {
                scan(chars, i + 1, run, true)
            }
        } else if c == '#' {
            scan(chars, i + 1, run, true)
        } else if is_space_char(c) {
            match run {
                Some((s, e)) => ScanStep { token: Some(finish_run(chars, s, e)), next: i + 1 },
                None => scan(chars, i + 1, None, false),
            }
        } else if is_structural_char(c) {
            match run {
                Some((s, e)) => ScanStep { token: Some(finish_run(chars, s, e)), next: i },
                None => ScanStep {
                    token: Some(TokenV { kind: structural_kind(c), start: i, len: 1 }),
                    next: i + 1,
                },
            }
        } else {
            match run {
                Some((s, e)) => scan(chars, i + 1, Some((s, e + 1)), false),
                None => scan(chars, i + 1, Some((i, i + 1)), false),
            }
        }
    }
}

/// A pull never moves the cursor backwards nor past the end.
pub proof fn lemma_scan_next_bounds(chars: Seq<char>, i: int, run: Option<(int, int)>, in_comment: bool)
    requires
        0 <= i <= chars.len(),
    ensures
        i <= scan(chars, i, run, in_comment).next <= chars.len(),
    decreases chars.len() - i,
{
    if i < chars.len() {
        let c = chars[i];
        if in_comment {
            if c == '\n' {
                if run is None {
                    lemma_scan_next_bounds(chars, i + 1, None, false);
                }
            } else {
                lemma_scan_next_bounds(chars, i + 1, run, true);
            }
        } else if c == '#' {
            lemma_scan_next_bounds(chars, i + 1, run, true);
        } else if is_space_char(c) {
            if run is None {
                lemma_scan_next_bounds(chars, i + 1, None, false);
            }
        } else if is_structural_char(c) {
        } else {
            match run {
                Some((s, e)) => lemma_scan_next_bounds(chars, i + 1, Some((s, e + 1)), false),
                None => lemma_scan_next_bounds(chars, i + 1, Some((i, i + 1)), false),
            }
        }
    }
}

/// A pull that starts with no buffered run and finds a token moves the
/// cursor strictly forward.
pub proof fn lemma_scan_progress(chars: Seq<char>, i: int, in_comment: bool)
    requires
        0 <= i <= chars.len(),
    ensures
        scan(chars, i, None, in_comment).token is Some ==> scan(
            chars,
            i,
            None,
            in_comment,
        ).next > i,
    decreases chars.len() - i,
{
    if i < chars.len() {
        let c = chars[i];
        if in_comment {
            if c == '\n' {
                lemma_scan_progress(chars, i + 1, false);
            } else {
                lemma_scan_progress(chars, i + 1, true);
            }
        } else if c == '#' {
            lemma_scan_progress(chars, i + 1, true);
        } else if is_space_char(c) {
            lemma_scan_progress(chars, i + 1, false);
        } else if is_structural_char(c) {
        } else {
            lemma_scan_next_bounds(chars, i + 1, Some((i, i + 1)), false);
        }
    }
}

/// The whole token sequence found from cursor `i` onwards.
pub open spec fn tokens_from(chars: Seq<char>, i: int) -> Seq<TokenV>
    decreases chars.len() - i,
{
    let st = scan(chars, i, None, false);
    match st.token {
        None => Seq::empty(),
        Some(t) => if i < st.next && st.next <= chars.len() {
            seq![t] + tokens_from(chars, st.next)
        } else {
            seq![t]
        },
    }
}

/// Whether the characters from `i` on hold only whitespace and line
/// comments, with the comment flag `in_comment` holding at `i`.
pub open spec fn blank_from(chars: Seq<char>, i: int, in_comment: bool) -> bool
    decreases chars.len() - i,
{
    if i >= chars.len() {
        true
    } else {
        let c = chars[i];
        if in_comment {
            blank_from(chars, i + 1, c != '\n')
        } else if c == '#' {
            blank_from(chars, i + 1, true)
        } else if is_space_char(c) {
            blank_from(chars, i + 1, false)
        } else {
            false
        }
    }
}

proof fn lemma_scan_blank(chars: Seq<char>, i: int, in_comment: bool)
    requires
        0 <= i <= chars.len(),
        blank_from(chars, i, in_comment),
    ensures
        scan(chars, i, None, in_comment).token is None,
    decreases chars.len() - i,
{
    if i < chars.len() {
        let c = chars[i];
        if in_comment {
            lemma_scan_blank(chars, i + 1, c != '\n');
        } else if c == '#' {
            lemma_scan_blank(chars, i + 1, true);
        } else {
            lemma_scan_blank(chars, i + 1, false);
        }
    }
}

/// An input composed only of whitespace and comments yields zero
/// tokens.
pub proof fn lemma_blank_input_yields_no_tokens(chars: Seq<char>)
    requires
        blank_from(chars, 0, false),
    ensures
        tokens_from(chars, 0) == Seq::<TokenV>::empty(),
{
    lemma_scan_blank(chars, 0, false);
}

/// The pull-based scanner: a cursor into the character sequence.
///
/// The cursor is exposed through [`Tokenizer::get_index`] and
/// [`Tokenizer::reset_index`] so that a caller may save and restore it.
pub struct Tokenizer {
    index: usize,
    pub chars: Vec<char>,
}

/// Mathematical value of a [`Tokenizer`].
pub struct TokenizerV {
    pub index: int,
    pub chars: Seq<char>,
}

impl View for Tokenizer {
    type V = TokenizerV;

    closed spec fn view(&self) -> TokenizerV {
        TokenizerV { index: self.index as int, chars: self.chars@ }
    }
}

/// Decides whether `c` is a decimal digit.
pub fn is_digit(c: char) -> (r: bool)
    ensures
        r == is_digit_char(c),
{
    let u = c as u32;
    48 <= u && u <= 57
}

fn is_space(c: char) -> (r: bool)
    ensures
        r == is_space_char(c),
{
    c == ' ' || c == '\n' || c == '\r' || c == '\t'
}

fn is_structural(c: char) -> (r: bool)
    ensures
        r == is_structural_char(c),
{
    c == '=' || c == ';' || c == '{' || c == '}' || c == '(' || c == ')' || c == '+' || c == '-'
        || c == '*' || c == '/'
}

/// The one-character token standing for a structural character.
fn structural_token(c: char, i: usize) -> (t: Token)
    requires
        is_structural_char(c),
    ensures
        t@ == (TokenV { kind: structural_kind(c), start: i as int, len: 1 }),
{
    let token_type = if c == '=' {
        TokenType::EQUAL
    } else if c == ';' {
        TokenType::COMMA
    } else if c == '{' {
        TokenType::LeftBrace
    } else if c == '}' {
        TokenType::RightBrace
    } else if c == '(' {
        TokenType::LeftParenthesis
    } else if c == ')' {
        TokenType::RightParenthesis
    } else if c == '+' {
        TokenType::PLUS
    } else if c == '-' {
        TokenType::MINUS
    } else if c == '*' {
        TokenType::MULT
    } else {
        TokenType::DIV
    };
    Token { token_type, start: i, len: 1 }
}

/// Extending a text by one character keeps it all-digits exactly when
/// the text was and the character is.
pub proof fn lemma_all_digits_push(text: Seq<char>, c: char)
    ensures
        all_digits(text.push(c)) == (all_digits(text) && is_digit_char(c)),
{
    if all_digits(text) && is_digit_char(c) {
        assert forall|i: int| 0 <= i < text.push(c).len() implies is_digit_char(
            #[trigger] text.push(c)[i],
        ) by {
            if i < text.len() {
                assert(text.push(c)[i] == text[i]);
            } else {
                assert(text.push(c)[i] == c);
            }
        }
    }
    if all_digits(text.push(c)) {
        assert forall|i: int| 0 <= i < text.len() implies is_digit_char(#[trigger] text[i]) by {
            assert(text[i] == text.push(c)[i]);
        }
        assert(text.push(c)[text.len() as int] == c);
    }
}

impl Tokenizer {
    pub fn new(text: &str) -> (r: Self)
        ensures
            r@.index == 0,
            r@.chars == text@,
    {
        Self { chars: chars_vec(text), index: 0 }
    }

    /// The cursor position never lies below the start of the input.
    pub proof fn lemma_index_nonneg(&self)
        ensures
            self@.index >= 0,
    {
    }

    /// The saved cursor position.
    pub fn get_index(&self) -> (r: usize)
        ensures
            r as int == self@.index,
    {
        self.index
    }

    /// Restores a previously saved cursor position.
    pub fn reset_index(&mut self, index: usize)
        ensures
            final(self)@.index == index as int,
            final(self)@.chars == old(self)@.chars,
    {
        self.index = index;
    }

    /// The text of the buffered run `chars[s .. e]`.
    fn run_text(&self, s: usize, e: usize) -> (r: String)
        requires
            s <= e,
            e <= self@.chars.len(),
        ensures
            r@ == self@.chars.subrange(s as int, e as int),
    {
        let mut out = String::new();
        let mut j = s;
        while j < e
            invariant
                s <= j <= e,
                e <= self.chars@.len(),
                out@ == self.chars@.subrange(s as int, j as int),
            decreases e - j,
        {
            push_char(&mut out, self.chars[j]);
            j = j + 1;
            proof {
                assert(out@ =~= self.chars@.subrange(s as int, j as int));
            }
        }
        out
    }

    /// Finalizes the buffered run `chars[s .. e]` into a classified token.
    fn finish_token(&self, s: usize, e: usize) -> (t: Token)
        requires
            s < e,
            e <= self@.chars.len(),
        ensures
            t@ == finish_run(self@.chars, s as int, e as int),
    {
        let ghost text_spec = self.chars@.subrange(s as int, e as int);
        let text = self.run_text(s, e);
        let mut all_dig = true;
        let mut j = s;
        while j < e
            invariant
                s <= j <= e,
                e <= self.chars@.len(),
                all_dig == all_digits(self.chars@.subrange(s as int, j as int)),
            decreases e - j,
        {
            let d = is_digit(self.chars[j]);
            proof {
                lemma_all_digits_push(self.chars@.subrange(s as int, j as int), self.chars@[j as int]);
                assert(self.chars@.subrange(s as int, j as int + 1) =~= self.chars@.subrange(
                    s as int,
                    j as int,
                ).push(self.chars@[j as int]));
            }
            all_dig = all_dig && d;
            j = j + 1;
        }
        let token_type = if all_dig {
            TokenType::NUMBER(text)
        } else {
            let n = e - s;
            let is_kw_let = n == 3 && self.chars[s] == 'l' && self.chars[s + 1] == 'e'
                && self.chars[s + 2] == 't';
            let is_kw_if = n == 2 && self.chars[s] == 'i' && self.chars[s + 1] == 'f';
            let is_kw_for = n == 3 && self.chars[s] == 'f' && self.chars[s + 1] == 'o'
                && self.chars[s + 2] == 'r';
            proof {
                if is_kw_let {
                    assert(text_spec =~= keyword_let());
                } else {
                    assert(text_spec != keyword_let()) by {
                        if text_spec == keyword_let() {
                            assert(text_spec.len() == 3);
                            assert(text_spec[0] == 'l' && text_spec[1] == 'e' && text_spec[2]
                                == 't');
                        }
                    }
                }
                if is_kw_if {
                    assert(text_spec =~= keyword_if());
                } else {
                    assert(text_spec != keyword_if()) by {
                        if text_spec == keyword_if() {
                            assert(text_spec.len() == 2);
                            assert(text_spec[0] == 'i' && text_spec[1] == 'f');
                        }
                    }
                }
                if is_kw_for {
                    assert(text_spec =~= keyword_for());
                } else {
                    assert(text_spec != keyword_for()) by {
                        if text_spec == keyword_for() {
                            assert(text_spec.len() == 3);
                            assert(text_spec[0] == 'f' && text_spec[1] == 'o' && text_spec[2]
                                == 'r');
                        }
                    }
                }
            }
            if is_kw_let {
                TokenType::LET
            } else if is_kw_if {
                TokenType::IF
            } else if is_kw_for {
                TokenType::FOR
            } else {
                TokenType::IDENT(text)
            }
        };
        Token { token_type, start: s, len: e - s }
    }

    /// One pull: the next token of the source, or `None` once the input
    /// is exhausted. Equal to one step of [`scan`] from the saved cursor.
    pub fn next_token(&mut self) -> (r: Option<Token>)
        ensures
            final(self)@.chars == old(self)@.chars,
            ({
                let st = scan(old(self)@.chars, old(self)@.index, None, false);
                &&& final(self)@.index == st.next
                &&& match (r, st.token) {
                    (Some(t), Some(tv)) => t@ == tv,
                    (None, None) => true,
                    _ => false,
                }
            }),
    {
        let ghost chars0 = self.chars@;
        let ghost i0 = self@.index;
        let mut has_run: bool = false;
        let mut run_s: usize = 0;
        let mut run_e: usize = 0;
        let mut in_com: bool = false;
        while self.index < self.chars.len()
            invariant
                chars0 == old(self)@.chars,
                i0 == old(self)@.index,
                self.chars@ == chars0,
                self.index as int <= chars0.len() || (self.index as int == i0 && !has_run),
                has_run ==> run_s < run_e && run_e <= self.index && run_e as int
                    <= chars0.len(),
                scan(chars0, i0, None, false) == scan(
                    chars0,
                    self.index as int,
                    if has_run {
                        Some((run_s as int, run_e as int))
                    } else {
                        None::<(int, int)>
                    },
                    in_com,
                ),
            decreases chars0.len() - self.index,
        {
            let c = self.chars[self.index];
            if in_com {
                if c == '\n' {
                    if has_run {
                        let t = self.finish_token(run_s, run_e);
                        self.index = self.index + 1;
                        return Some(t);
                    } else {
                        in_com = false;
                        self.index = self.index + 1;
                    }
                } else {
                    self.index = self.index + 1;
                }
            } else if c == '#' {
                in_com = true;
                self.index = self.index + 1;
            } else if is_space(c) {
                if has_run {
                    let t = self.finish_token(run_s, run_e);
                    self.index = self.index + 1;
                    return Some(t);
                } else {
                    self.index = self.index + 1;
                }
            } else if is_structural(c) {
                if has_run {
                    let t = self.finish_token(run_s, run_e);
                    return Some(t);
                } else {
                    let t = structural_token(c, self.index);
                    self.index = self.index + 1;
                    return Some(t);
                }
            } else {
                if has_run {
                    run_e = run_e + 1;
                } else {
                    has_run = true;
                    run_s = self.index;
                    run_e = self.index + 1;
                }
                self.index = self.index + 1;
            }
        }
        None
    }
}

} // verus!
