//! The tokenizer: raw command-line text to a sequence of typed tokens.

use vstd::prelude::*;

use crate::error::{Error, SyntaxError};
use crate::text::{chars_of, string_of};

verus! {

/// One lexical unit of a command line.
#[derive(Debug, PartialEq, Eq, Clone)]
pub enum Token {
    /// An unquoted run of characters.
    String(String),
    /// The text between single quotes, and whether the closing quote was found.
    SingleQuotedString(String, bool),
    /// The text between double quotes (escapes removed), and whether the closing quote was found.
    DoubleQuotedString(String, bool),
    /// `from>to` or `from>>to`: the descriptor, the target, the blanks between `>` and the
    /// target, and whether the output is appended.
    RedirectOutput(Option<String>, String, Option<String>, bool),
    /// `<to`.
    RedirectInput(String),
    Pipe,
    Semicolon,
    Space,
    And,
    Or,
    Ampersand,
}

/// The mathematical value of a [`Token`]: its texts as character sequences.
pub enum TokenV {
    Str(Seq<char>),
    SingleQuoted(Seq<char>, bool),
    DoubleQuoted(Seq<char>, bool),
    RedirectOutput(Option<Seq<char>>, Seq<char>, Option<Seq<char>>, bool),
    RedirectInput(Seq<char>),
    Pipe,
    Semicolon,
    Space,
    And,
    Or,
    Ampersand,
}

pub open spec fn opt_view(o: Option<String>) -> Option<Seq<char>> {
    match o {
        Some(s) => Some(s@),
        None => None,
    }
}

impl View for Token {
    type V = TokenV;

    open spec fn view(&self) -> TokenV {
        match self {
            Token::String(s) => TokenV::Str(s@),
            Token::SingleQuotedString(s, c) => TokenV::SingleQuoted(s@, *c),
            Token::DoubleQuotedString(s, c) => TokenV::DoubleQuoted(s@, *c),
            Token::RedirectOutput(f, t, w, a) => TokenV::RedirectOutput(
                opt_view(*f),
                t@,
                opt_view(*w),
                *a,
            ),
            Token::RedirectInput(t) => TokenV::RedirectInput(t@),
            Token::Pipe => TokenV::Pipe,
            Token::Semicolon => TokenV::Semicolon,
            Token::Space => TokenV::Space,
            Token::And => TokenV::And,
            Token::Or => TokenV::Or,
            Token::Ampersand => TokenV::Ampersand,
        }
    }
}

pub open spec fn tokens_view(ts: Seq<Token>) -> Seq<TokenV> {
    ts.map_values(|t: Token| t@)
}

pub open spec fn is_blank(c: char) -> bool {
    c == ' ' || c == '\t'
}

/// Characters that end an unquoted word outside of a command substitution.
pub open spec fn is_word_delim(c: char) -> bool {
    is_blank(c) || c == ';' || c == '|' || c == '&' || c == '<' || c == '>' || c == '\''
        || c == '"'
}

pub open spec fn is_digit(c: char) -> bool {
    '0' <= c <= '9'
}

pub open spec fn all_digits(s: Seq<char>) -> bool {
    s.len() > 0 && forall|k: int| 0 <= k < s.len() ==> is_digit(#[trigger] s[k])
}

/// Whether `$(` starts at `i`.
pub open spec fn opens_subst(s: Seq<char>, i: int) -> bool {
    0 <= i && i + 1 < s.len() && s[i] == '$' && s[i + 1 as int] == '('
}

/// Where an unquoted word that is at `i` with `depth` open substitutions ends: at the first
/// delimiter outside any `$( ... )`, or at the end of the text.
pub open spec fn word_end(s: Seq<char>, i: nat, depth: nat) -> nat
    decreases s.len() - i,
{
    if i >= s.len() {
        s.len()
    } else if depth == 0 && is_word_delim(s[i as int]) {
        i
    } else if opens_subst(s, i as int) {
        word_end(s, i + 2, depth + 1)
    } else if s[i as int] == ')' && depth > 0 {
        word_end(s, i + 1, (depth - 1) as nat)
    } else {
        word_end(s, i + 1, depth)
    }
}

/// The first index at or after `i` that holds no blank.
pub open spec fn blanks_end(s: Seq<char>, i: nat) -> nat
    decreases s.len() - i,
{
    if i < s.len() && is_blank(s[i as int]) {
        blanks_end(s, i + 1)
    } else {
        i
    }
}

/// The first index at or after `i` that holds a single quote, or the end of the text.
pub open spec fn quote_end(s: Seq<char>, i: nat) -> nat
    decreases s.len() - i,
{
    if i >= s.len() || s[i as int] == '\'' {
        i
    } else {
        quote_end(s, i + 1)
    }
}

/// The rest of a double-quoted string whose text continues at `i` with `depth` open
/// substitutions: its content, the index after it, and whether the closing quote was found.
/// Outside substitutions, `\"` and `\\` stand for `"` and `\`.
pub open spec fn dq_scan(s: Seq<char>, i: nat, depth: nat) -> (Seq<char>, nat, bool)
    decreases s.len() - i,
{
    if i >= s.len() {
        (Seq::empty(), s.len(), false)
    } else if depth == 0 && s[i as int] == '"' {
        (Seq::empty(), i + 1, true)
    } else if depth == 0 && s[i as int] == '\\' && i + 1 < s.len() && (s[i + 1 as int] == '"' || s[i + 1 as int] == '\\') {
        let r = dq_scan(s, i + 2, 0);
        (seq![s[i + 1 as int]] + r.0, r.1, r.2)
    } else if opens_subst(s, i as int) {
        let r = dq_scan(s, i + 2, depth + 1);
        (seq!['$', '('] + r.0, r.1, r.2)
    } else if s[i as int] == ')' && depth > 0 {
        let r = dq_scan(s, i + 1, (depth - 1) as nat);
        (seq![')'] + r.0, r.1, r.2)
    } else {
        let r = dq_scan(s, i + 1, depth);
        (seq![s[i as int]] + r.0, r.1, r.2)
    }
}

/// Where the target of a redirection that starts at `i` ends: a leading `&` (as in `2>&1`),
/// then an unquoted word.
pub open spec fn target_end(s: Seq<char>, i: nat) -> nat {
    if i < s.len() && s[i as int] == '&' {
        word_end(s, i + 1, 0)
    } else {
        word_end(s, i, 0)
    }
}

/// The output redirection whose `>` is at `k`, with descriptor `from`, and where it ends.
pub open spec fn redirect_output_at(s: Seq<char>, from: Option<Seq<char>>, k: nat) -> (
    TokenV,
    nat,
) {
    let append = k + 1 < s.len() && s[k + 1 as int] == '>';
    let p: nat = if append {
        k + 2
    } else {
        k + 1
    };
    let q = blanks_end(s, p);
    let blanks = if q > p {
        Some(s.subrange(p as int, q as int))
    } else {
        None
    };
    let e = target_end(s, q);
    (TokenV::RedirectOutput(from, s.subrange(q as int, e as int), blanks, append), e)
}

/// The token that starts at `i` (which is inside the text) and the index after it.
pub open spec fn token_at(s: Seq<char>, i: nat) -> (TokenV, nat) {
    let c = s[i as int];
    if is_blank(c) {
        (TokenV::Space, i + 1)
    } else if c == ';' {
        (TokenV::Semicolon, i + 1)
    } else if c == '|' {
        if i + 1 < s.len() && s[i + 1 as int] == '|' {
            (TokenV::Or, i + 2)
        } else {
            (TokenV::Pipe, i + 1)
        }
    } else if c == '&' {
        if i + 1 < s.len() && s[i + 1 as int] == '&' {
            (TokenV::And, i + 2)
        } else {
            (TokenV::Ampersand, i + 1)
        }
    } else if c == '>' {
        redirect_output_at(s, None, i)
    } else if c == '<' {
        let q = blanks_end(s, i + 1);
        let e = target_end(s, q);
        (TokenV::RedirectInput(s.subrange(q as int, e as int)), e)
    } else if c == '\'' {
        let k = quote_end(s, i + 1);
        if k < s.len() {
            (TokenV::SingleQuoted(s.subrange(i + 1 as int, k as int), true), k + 1)
        } else {
            (TokenV::SingleQuoted(s.subrange(i + 1 as int, k as int), false), k)
        }
    } else if c == '"' {
        let r = dq_scan(s, i + 1, 0);
        (TokenV::DoubleQuoted(r.0, r.2), r.1)
    } else {
        let e = word_end(s, i, 0);
        if e < s.len() && s[e as int] == '>' && all_digits(s.subrange(i as int, e as int)) {
            redirect_output_at(s, Some(s.subrange(i as int, e as int)), e)
        } else {
            (TokenV::Str(s.subrange(i as int, e as int)), e)
        }
    }
}

/// The tokens of `s` from index `i` on, after those already in `acc`.
pub open spec fn lex_from(s: Seq<char>, i: nat, acc: Seq<TokenV>) -> Seq<TokenV>
    decreases s.len() - i,
{
    if i >= s.len() {
        acc
    } else {
        let (t, j) = token_at(s, i);
        if j <= i || j > s.len() {
            acc
        } else {
            lex_from(s, j, acc.push(t))
        }
    }
}

/// The tokens of `s`.
pub open spec fn lex_spec(s: Seq<char>) -> Seq<TokenV> {
    lex_from(s, 0, Seq::empty())
}

pub open spec fn is_unclosed(t: TokenV) -> bool {
    match t {
        TokenV::SingleQuoted(_, closed) => !closed,
        TokenV::DoubleQuoted(_, closed) => !closed,
        _ => false,
    }
}

pub open spec fn has_unclosed(ts: Seq<TokenV>) -> bool {
    exists|k: int| 0 <= k < ts.len() && is_unclosed(#[trigger] ts[k])
}

fn is_blank_char(c: char) -> (r: bool)
    ensures
        r == is_blank(c),
{
    c == ' ' || c == '\t'
}

fn is_word_delim_char(c: char) -> (r: bool)
    ensures
        r == is_word_delim(c),
{
    is_blank_char(c) || c == ';' || c == '|' || c == '&' || c == '<' || c == '>' || c == '\''
        || c == '"'
}

fn opens_subst_at(s: &Vec<char>, i: usize) -> (r: bool)
    requires
        i < s@.len(),
    ensures
        r == opens_subst(s@, i as int),
{
    let n = s.len();
    s[i] == '$' && i + 1 < n && s[i + 1] == '('
}

fn scan_word_end(s: &Vec<char>, start: usize) -> (e: usize)
    requires
        start <= s@.len(),
    ensures
        e == word_end(s@, start as nat, 0),
        start <= e <= s@.len(),
{
    let mut i = start;
    let mut depth: usize = 0;
    while i < s.len()
        invariant
            start <= i <= s@.len(),
            depth <= i,
            word_end(s@, i as nat, depth as nat) == word_end(s@, start as nat, 0),
        decreases s@.len() - i,
    {
        if depth == 0 && is_word_delim_char(s[i]) {
            return i;
        } else if opens_subst_at(s, i) {
            i += 2;
            depth += 1;
        } else if s[i] == ')' && depth > 0 {
            i += 1;
            depth -= 1;
        } else {
            i += 1;
        }
    }
    i
}

fn scan_blanks_end(s: &Vec<char>, start: usize) -> (e: usize)
    requires
        start <= s@.len(),
    ensures
        e == blanks_end(s@, start as nat),
        start <= e <= s@.len(),
{
    let mut i = start;
    while i < s.len() && is_blank_char(s[i])
        invariant
            start <= i <= s@.len(),
            blanks_end(s@, i as nat) == blanks_end(s@, start as nat),
        decreases s@.len() - i,
    {
        i += 1;
    }
    i
}

fn scan_quote_end(s: &Vec<char>, start: usize) -> (e: usize)
    requires
        start <= s@.len(),
    ensures
        e == quote_end(s@, start as nat),
        start <= e <= s@.len(),
{
    let mut i = start;
    while i < s.len() && s[i] != '\''
        invariant
            start <= i <= s@.len(),
            quote_end(s@, i as nat) == quote_end(s@, start as nat),
        decreases s@.len() - i,
    {
        i += 1;
    }
    i
}

fn scan_target_end(s: &Vec<char>, start: usize) -> (e: usize)
    requires
        start <= s@.len(),
    ensures
        e == target_end(s@, start as nat),
        start <= e <= s@.len(),
{
    if start < s.len() && s[start] == '&' {
        scan_word_end(s, start + 1)
    } else {
        scan_word_end(s, start)
    }
}

proof fn lemma_word_end_ge(s: Seq<char>, i: nat, depth: nat)
    ensures
        i <= s.len() ==> i <= word_end(s, i, depth) <= s.len(),
    decreases s.len() - i,
{
    if i < s.len() {
        if depth == 0 && is_word_delim(s[i as int]) {
        } else if opens_subst(s, i as int) {
            lemma_word_end_ge(s, i + 2, depth + 1);
        } else if s[i as int] == ')' && depth > 0 {
            lemma_word_end_ge(s, i + 1, (depth - 1) as nat);
        } else {
            lemma_word_end_ge(s, i + 1, depth);
        }
    }
}

proof fn lemma_dq_scan_end(s: Seq<char>, i: nat, depth: nat)
    ensures
        i < s.len() ==> dq_scan(s, i, depth).1 > i,
        dq_scan(s, i, depth).1 <= s.len() || i > s.len(),
    decreases s.len() - i,
{
    if i < s.len() {
        if depth == 0 && s[i as int] == '"' {
        } else if depth == 0 && s[i as int] == '\\' && i + 1 < s.len() && (s[i + 1 as int] == '"' || s[i + 1 as int] == '\\') {
            lemma_dq_scan_end(s, i + 2, 0);
        } else if opens_subst(s, i as int) {
            lemma_dq_scan_end(s, i + 2, depth + 1);
        } else if s[i as int] == ')' && depth > 0 {
            lemma_dq_scan_end(s, i + 1, (depth - 1) as nat);
        } else {
            lemma_dq_scan_end(s, i + 1, depth);
        }
    }
}

/// The double-quoted string whose text starts at `start`.
fn scan_double_quoted(s: &Vec<char>, start: usize) -> (r: (Vec<char>, usize, bool))
    requires
        start <= s@.len(),
    ensures
        (r.0@, r.1 as nat, r.2) == dq_scan(s@, start as nat, 0),
{
    let mut content: Vec<char> = Vec::new();
    let mut i = start;
    let mut depth: usize = 0;
    while i < s.len()
        invariant
            start <= i <= s@.len(),
            depth <= i,
            ({
                let r = dq_scan(s@, i as nat, depth as nat);
                (content@ + r.0, r.1, r.2) == dq_scan(s@, start as nat, 0)
            }),
        decreases s@.len() - i,
    {
        let ghost prev = content@;
        if depth == 0 && s[i] == '"' {
            assert(content@ + Seq::<char>::empty() =~= content@);
            return (content, i + 1, true);
        } else if depth == 0 && s[i] == '\\' && i + 1 < s.len() && (s[i + 1] == '"' || s[i + 1]
            == '\\') {
            content.push(s[i + 1]);
            i += 2;
            depth = 0;
        } else if opens_subst_at(s, i) {
            content.push('$');
            content.push('(');
            i += 2;
            depth += 1;
        } else if s[i] == ')' && depth > 0 {
            content.push(')');
            i += 1;
            depth -= 1;
        } else {
            content.push(s[i]);
            i += 1;
        }
        assert forall|x: Seq<char>| prev + (content@.subrange(prev.len() as int, content@.len() as int) + x) =~= content@ + x by {
            assert(content@ =~= prev + content@.subrange(prev.len() as int, content@.len() as int));
        }
    }
    assert(content@ + Seq::<char>::empty() =~= content@);
    (content, i, false)
}

fn all_digits_in(s: &Vec<char>, lo: usize, hi: usize) -> (r: bool)
    requires
        lo <= hi <= s@.len(),
    ensures
        r == all_digits(s@.subrange(lo as int, hi as int)),
{
    if lo == hi {
        return false;
    }
    let mut i = lo;
    while i < hi
        invariant
            lo <= i <= hi <= s@.len(),
            forall|k: int| lo <= k < i ==> is_digit(s@[k]),
        decreases hi - i,
    {
        if !('0' <= s[i] && s[i] <= '9') {
            assert(!is_digit(s@.subrange(lo as int, hi as int)[i - lo]));
            return false;
        }
        i += 1;
    }
    assert forall|k: int| 0 <= k < hi - lo implies is_digit(
        #[trigger] s@.subrange(lo as int, hi as int)[k],
    ) by {
        assert(s@.subrange(lo as int, hi as int)[k] == s@[lo + k]);
    }
    true
}

fn lex_redirect_output(s: &Vec<char>, from: Option<String>, k: usize) -> (r: (Token, usize))
    requires
        k < s@.len(),
        s@[k as int] == '>',
    ensures
        (r.0@, r.1 as nat) == redirect_output_at(s@, opt_view(from), k as nat),
        k < r.1 <= s@.len(),
{
    let n = s.len();
    let append = k + 1 < n && s[k + 1] == '>';
    let p = if append {
        k + 2
    } else {
        k + 1
    };
    let q = scan_blanks_end(s, p);
    let blanks = if q > p {
        Some(string_of(s, p, q))
    } else {
        None
    };
    let e = scan_target_end(s, q);
    (Token::RedirectOutput(from, string_of(s, q, e), blanks, append), e)
}

/// The token that starts at `i`, and the index after it.
fn lex_token(s: &Vec<char>, i: usize) -> (r: (Token, usize))
    requires
        i < s@.len(),
    ensures
        (r.0@, r.1 as nat) == token_at(s@, i as nat),
        i < r.1 <= s@.len(),
{
    let n = s.len();
    let c = s[i];
    if is_blank_char(c) {
        (Token::Space, i + 1)
    } else if c == ';' {
        (Token::Semicolon, i + 1)
    } else if c == '|' {
        if i + 1 < s.len() && s[i + 1] == '|' {
            (Token::Or, i + 2)
        } else {
            (Token::Pipe, i + 1)
        }
    } else if c == '&' {
        if i + 1 < s.len() && s[i + 1] == '&' {
            (Token::And, i + 2)
        } else {
            (Token::Ampersand, i + 1)
        }
    } else if c == '>' {
        lex_redirect_output(s, None, i)
    } else if c == '<' {
        let q = scan_blanks_end(s, i + 1);
        let e = scan_target_end(s, q);
        (Token::RedirectInput(string_of(s, q, e)), e)
    } else if c == '\'' {
        let k = scan_quote_end(s, i + 1);
        if k < s.len() {
            (Token::SingleQuotedString(string_of(s, i + 1, k), true), k + 1)
        } else {
            (Token::SingleQuotedString(string_of(s, i + 1, k), false), k)
        }
    } else if c == '"' {
        proof {
            lemma_dq_scan_end(s@, (i + 1) as nat, 0);
        }
        let (content, end, closed) = scan_double_quoted(s, i + 1);
        (Token::DoubleQuotedString(crate::text::string_from(&content), closed), end)
    } else {
        let e = scan_word_end(s, i);
        if e < s.len() && s[e] == '>' && all_digits_in(s, i, e) {
            let from = string_of(s, i, e);
            lex_redirect_output(s, Some(from), e)
        } else {
            proof {
                lemma_word_end_ge(s@, (i + 1) as nat, 0);
                lemma_word_end_ge(s@, (i + 2) as nat, 1);
            }
            (Token::String(string_of(s, i, e)), e)
        }
    }
}

/// The tokens of the text `s`.
pub fn lex_chars(s: &Vec<char>) -> (r: Vec<Token>)
    ensures
        tokens_view(r@) == lex_spec(s@),
{
    let mut tokens: Vec<Token> = Vec::new();
    let mut i: usize = 0;
    assert(tokens_view(tokens@) =~= Seq::empty());
    while i < s.len()
        invariant
            i <= s@.len(),
            lex_from(s@, i as nat, tokens_view(tokens@)) == lex_spec(s@),
        decreases s@.len() - i,
    {
        let (t, j) = lex_token(s, i);
        proof {
            assert(tokens_view(tokens@.push(t)) =~= tokens_view(tokens@).push(t@));
        }
        tokens.push(t);
        i = j;
    }
    tokens
}

/// Splits `line` into tokens. An unterminated quote yields a token marked as not closed when
/// `interactive` is set (so that text being typed can still be shown), and an error otherwise.
pub fn lex(line: &str, interactive: bool) -> (r: Result<Vec<Token>, Error>)
    ensures
        interactive || !has_unclosed(lex_spec(line@)) ==> (r matches Ok(ts) && tokens_view(ts@)
            == lex_spec(line@)),
        !interactive && has_unclosed(lex_spec(line@)) ==> r == Err::<Vec<Token>, Error>(
            Error::Syntax(SyntaxError::UnterminatedQuote),
        ),
{
    let chars = chars_of(line);
    let tokens = lex_chars(&chars);
    if !interactive && any_unclosed(&tokens) {
        Err(Error::Syntax(SyntaxError::UnterminatedQuote))
    } else {
        Ok(tokens)
    }
}

/// Whether some token is a quoted string whose closing quote is missing.
pub fn any_unclosed(tokens: &Vec<Token>) -> (r: bool)
    ensures
        r == has_unclosed(tokens_view(tokens@)),
{
    let mut i: usize = 0;
    while i < tokens.len()
        invariant
            i <= tokens@.len(),
            forall|k: int| 0 <= k < i ==> !is_unclosed(#[trigger] tokens_view(tokens@)[k]),
        decreases tokens@.len() - i,
    {
        match &tokens[i] {
            Token::SingleQuotedString(_, false) | Token::DoubleQuotedString(_, false) => {
                assert(is_unclosed(tokens_view(tokens@)[i as int]));
                return true;
            },
            _ => {},
        }
        i += 1;
    }
    false
}

} // verus!
