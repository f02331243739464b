//! The parser: tokens to a syntax tree, with the expansions of each word found by the word
//! scanner. The text of a command substitution is parsed on the spot, to a bounded depth.

use core::ops::RangeInclusive;
use vstd::prelude::*;

use crate::ast::{
    char_span, lemma_no_spans, lemma_spans_grow, command_types_v, commands_v, expansions_v, live, span, meta_wf, metas_v, spans_ordered, Command,
    CommandType, CommandTypeV, CommandV, Expansion, ExpansionV, Meta, MetaV, Redirect, RedirectV,
    SyntaxTree, TreeV, Word, WordV,
};
use crate::error::{Error, Feature, SyntaxError};
use crate::text::{
    is_whitespace, is_whitespace_char, advance_bytes, char_index, byte_len, byte_pos, char_width, chars_of, concat_chars, lemma_byte_pos_mono,
    lemma_byte_len_suffix, lemma_byte_pos_step, lemma_marks_width, lemma_char_index_of_byte_pos, string_from, string_of,
};
use crate::token::{
    any_unclosed, has_unclosed, lex_chars, lex_spec, opens_subst, tokens_view, Token, TokenV,
};

verus! {

/// How deeply command substitutions may be nested in one line.
pub const MAX_NESTING_DEPTH: usize = 32;

/// Which expansions the word scanner looks for.
#[derive(Debug, PartialEq, Eq, Clone, Copy, Structural)]
pub enum Mode {
    /// Parameters, command substitutions, globs and tildes: unquoted words.
    Full,
    /// Parameters and command substitutions: double-quoted words.
    ParametersAndCommands,
    /// Nothing: single-quoted words and the names of assignments.
    Literal,
}

pub open spec fn is_name_char(c: char) -> bool {
    ('a' <= c <= 'z') || ('A' <= c <= 'Z') || ('0' <= c <= '9') || c == '_'
}

/// The first index at or after `i` that holds no name character.
pub open spec fn name_end(s: Seq<char>, i: nat) -> nat
    decreases s.len() - i,
{
    if i < s.len() && is_name_char(s[i as int]) {
        name_end(s, i + 1)
    } else {
        i
    }
}

/// The index of the `)` that closes a substitution whose text continues at `i`, inside
/// `level` further open substitutions.
pub open spec fn subst_close(s: Seq<char>, i: nat, level: nat) -> Option<nat>
    decreases s.len() - i,
{
    if i >= s.len() {
        None
    } else if s[i as int] == ')' {
        if level == 0 {
            Some(i)
        } else {
            subst_close(s, i + 1, (level - 1) as nat)
        }
    } else if opens_subst(s, i as int) {
        subst_close(s, i + 2, level + 1)
    } else {
        subst_close(s, i + 1, level)
    }
}

/// The first index at or after `i` that holds whitespace or a `/`, or the end of the text.
pub open spec fn glob_end(s: Seq<char>, i: nat) -> nat
    decreases s.len() - i,
{
    if i < s.len() && !is_whitespace(s[i as int]) && s[i as int] != '/' {
        glob_end(s, i + 1)
    } else {
        i
    }
}

pub open spec fn has_double_star(p: Seq<char>) -> bool {
    exists|k: int| 0 <= k < p.len() - 1 && #[trigger] p[k] == '*' && p[k + 1] == '*'
}

/// A `~` at `i` stands for the home directory: it starts the word or follows a blank or
/// `=`, and it ends the word or is followed by a blank or `/`.
pub open spec fn tilde_at(s: Seq<char>, i: int) -> bool {
    &&& 0 <= i < s.len()
    &&& s[i] == '~'
    &&& i == 0 || s[i - 1] == ' ' || s[i - 1] == '='
    &&& i + 1 == s.len() || s[i + 1] == ' ' || s[i + 1] == '/'
}

/// The first index at or after `i` that holds `=`, or the end of the text.
pub open spec fn first_eq(s: Seq<char>, i: nat) -> nat
    decreases s.len() - i,
{
    if i < s.len() && s[i as int] != '=' {
        first_eq(s, i + 1)
    } else {
        i
    }
}

pub open spec fn budget(depth: nat) -> int {
    MAX_NESTING_DEPTH as int - depth
}

/// The expansions of `s` from index `i` on, after those already in `acc`.
pub open spec fn scan_from(
    s: Seq<char>,
    i: nat,
    mode: Mode,
    acc: Seq<ExpansionV>,
    depth: nat,
) -> Result<Seq<ExpansionV>, Error>
    decreases budget(depth), 1int, s.len() - i,
{
    if i >= s.len() {
        Ok(acc)
    } else if s[i as int] == '$' && i + 1 < s.len() && is_name_char(s[i + 1 as int]) {
        let e = name_end(s, i + 1);
        if e <= i || e > s.len() {
            Ok(acc)
        } else {
            let p = ExpansionV::Parameter {
                start: byte_pos(s, i as int),
                end: (byte_pos(s, e as int) - 1) as nat,
                name: s.subrange(i + 1 as int, e as int),
            };
            scan_from(s, e, mode, acc.push(p), depth)
        }
    } else if opens_subst(s, i as int) {
        match subst_close(s, i + 2, 0) {
            None => Err(Error::Syntax(SyntaxError::UnterminatedSubstitution)),
            Some(c) => {
                if depth >= MAX_NESTING_DEPTH {
                    Err(Error::NestingLimitExceeded)
                } else if c < i + 2 || c >= s.len() {
                    Ok(acc)
                } else {
                    match parse_spec(s.subrange(i + 2 as int, c as int), depth + 1) {
                        Err(err) => Err(err),
                        Ok(t) => scan_from(
                            s,
                            c + 1,
                            mode,
                            acc.push(
                                ExpansionV::Command {
                                    start: byte_pos(s, i as int),
                                    end: byte_pos(s, c as int),
                                    ast: t,
                                },
                            ),
                            depth,
                        ),
                    }
                }
            },
        }
    } else if s[i as int] == '$' {
        Err(Error::Syntax(SyntaxError::StrayDollar))
    } else if mode == Mode::Full && s[i as int] == '*' {
        let e = glob_end(s, i + 1);
        if e <= i || e > s.len() {
            Ok(acc)
        } else {
            let p = s.subrange(i as int, e as int);
            let g = ExpansionV::Glob {
                start: byte_pos(s, i as int),
                end: (byte_pos(s, e as int) - 1) as nat,
                pattern: p,
                recursive: has_double_star(p),
            };
            scan_from(s, e, mode, acc.push(g), depth)
        }
    } else if mode == Mode::Full && tilde_at(s, i as int) {
        scan_from(s, i + 1, mode, acc.push(ExpansionV::Tilde { index: byte_pos(s, i as int) }), depth)
    } else {
        scan_from(s, i + 1, mode, acc, depth)
    }
}

/// The word with text `s`, scanned for the expansions that `mode` allows.
pub open spec fn word_spec(s: Seq<char>, mode: Mode, depth: nat) -> Result<WordV, Error>
    decreases budget(depth), 2int, 0int,
{
    if mode == Mode::Literal {
        Ok(WordV { name: s, expansions: Seq::empty() })
    } else {
        match scan_from(s, 0, mode, Seq::empty(), depth) {
            Ok(es) => Ok(WordV { name: s, expansions: es }),
            Err(e) => Err(e),
        }
    }
}

pub open spec fn as_word(r: Result<WordV, Error>) -> Result<MetaV, Error> {
    match r {
        Ok(w) => Ok(MetaV::Word(w)),
        Err(e) => Err(e),
    }
}

/// The metadata of an unquoted word: `NAME=VALUE` with a non-empty name is an assignment
/// when `is_prefix`, anything else a plain word.
pub open spec fn string_meta_spec(s: Seq<char>, is_prefix: bool, depth: nat) -> Result<
    MetaV,
    Error,
>
    decreases budget(depth), 3int, 0int,
{
    let k = first_eq(s, 0);
    if is_prefix && 0 < k < s.len() {
        match word_spec(s.subrange(k + 1 as int, s.len() as int), Mode::Full, depth) {
            Ok(v) => Ok(
                MetaV::Assignment(WordV { name: s.subrange(0, k as int), expansions: Seq::empty() }, v),
            ),
            Err(e) => Err(e),
        }
    } else {
        as_word(word_spec(s, Mode::Full, depth))
    }
}

/// The descriptor word of an output redirection, if it names one.
pub open spec fn from_spec(from: Option<Seq<char>>, depth: nat) -> Result<Option<WordV>, Error>
    decreases budget(depth), 3int, 0int,
{
    match from {
        None => Ok(None),
        Some(f) => match word_spec(f, Mode::Full, depth) {
            Ok(w) => Ok(Some(w)),
            Err(e) => Err(e),
        },
    }
}

/// The metadata of an output redirection.
pub open spec fn output_meta_spec(
    from: Option<Seq<char>>,
    to: Seq<char>,
    append: bool,
    depth: nat,
) -> Result<MetaV, Error>
    decreases budget(depth), 4int, 0int,
{
    if to.len() == 0 {
        Err(Error::Syntax(SyntaxError::MissingRedirectTarget))
    } else {
        match from_spec(from, depth) {
            Err(e) => Err(e),
            Ok(fw) => match word_spec(to, Mode::Full, depth) {
                Ok(w) => Ok(MetaV::Redirect(RedirectV::Output { from: fw, to: w, append })),
                Err(e) => Err(e),
            },
        }
    }
}

/// The metadata that a word or redirection token stands for; `is_prefix` when no command
/// name precedes it. Only there is `NAME=VALUE` an assignment.
pub open spec fn meta_spec(t: TokenV, is_prefix: bool, depth: nat) -> Result<MetaV, Error>
    decreases budget(depth), 5int, 0int,
{
    match t {
        TokenV::Str(s) => string_meta_spec(s, is_prefix, depth),
        TokenV::SingleQuoted(s, closed) => {
            if closed {
                Ok(MetaV::Word(WordV { name: s, expansions: Seq::empty() }))
            } else {
                Err(Error::Syntax(SyntaxError::UnterminatedQuote))
            }
        },
        TokenV::DoubleQuoted(s, closed) => {
            if closed {
                as_word(word_spec(s, Mode::ParametersAndCommands, depth))
            } else {
                Err(Error::Syntax(SyntaxError::UnterminatedQuote))
            }
        },
        TokenV::RedirectInput(to) => {
            if to.len() == 0 {
                Err(Error::Syntax(SyntaxError::MissingRedirectTarget))
            } else {
                match word_spec(to, Mode::Full, depth) {
                    Ok(w) => Ok(MetaV::Redirect(RedirectV::Input { to: w })),
                    Err(e) => Err(e),
                }
            }
        },
        TokenV::RedirectOutput(from, to, _, append) => output_meta_spec(from, to, append, depth),
        _ => Ok(MetaV::Word(WordV { name: Seq::empty(), expansions: Seq::empty() })),
    }
}

/// An unquoted word that opens a subshell.
pub open spec fn opens_subshell(t: TokenV) -> bool {
    t matches TokenV::Str(s) && s.len() > 0 && s[0] == '('
}

/// An unquoted word that opens a command group.
pub open spec fn opens_group(t: TokenV) -> bool {
    t matches TokenV::Str(s) && s == seq!['{']
}

/// The command of the stage `ts[lo..hi]`, from token `i` on, given the name, prefixes and
/// suffixes found before `i`.
pub open spec fn command_from(
    ts: Seq<TokenV>,
    lo: nat,
    i: nat,
    hi: nat,
    name: Option<WordV>,
    pre: Seq<MetaV>,
    suf: Seq<MetaV>,
    depth: nat,
) -> Result<CommandV, Error>
    decreases budget(depth), 6int, hi - i,
{
    if i >= hi || i >= ts.len() {
        match name {
            Some(w) => Ok(CommandV { name: w, prefixes: pre, suffixes: suf }),
            None => Err(
                Error::Syntax(SyntaxError::MissingCommand { start: lo as usize, end: hi as usize }),
            ),
        }
    } else {
        let t = ts[i as int];
        match t {
            TokenV::Space | TokenV::Pipe | TokenV::Semicolon => command_from(
                ts,
                lo,
                i + 1,
                hi,
                name,
                pre,
                suf,
                depth,
            ),
            TokenV::And => Err(Error::Unsupported(Feature::And)),
            TokenV::Or => Err(Error::Unsupported(Feature::Or)),
            TokenV::Ampersand => Err(Error::Unsupported(Feature::Background)),
            _ => match meta_spec(t, name is None, depth) {
                Err(e) => Err(e),
                Ok(m) => {
                    if name is None {
                        match m {
                            MetaV::Word(w) => command_from(
                                ts,
                                lo,
                                i + 1,
                                hi,
                                Some(w),
                                pre,
                                suf,
                                depth,
                            ),
                            _ => command_from(ts, lo, i + 1, hi, name, pre.push(m), suf, depth),
                        }
                    } else {
                        command_from(ts, lo, i + 1, hi, name, pre, suf.push(m), depth)
                    }
                },
            },
        }
    }
}

/// The first construct among the tokens `ts[k..hi]` that is recognised but not supported:
/// `&&`, `||`, `&`, a word opening a subshell, or (`at_start`, before any other non-blank
/// token) a `{` opening a group.
pub open spec fn unsupported_from(ts: Seq<TokenV>, k: nat, hi: nat, at_start: bool) -> Option<
    Feature,
>
    decreases hi - k,
{
    if k >= hi || k >= ts.len() {
        None
    } else {
        match ts[k as int] {
            TokenV::And => Some(Feature::And),
            TokenV::Or => Some(Feature::Or),
            TokenV::Ampersand => Some(Feature::Background),
            TokenV::Space => unsupported_from(ts, k + 1, hi, at_start),
            t => {
                if opens_subshell(t) {
                    Some(Feature::Subshell)
                } else if at_start && opens_group(t) {
                    Some(Feature::Grouping)
                } else {
                    unsupported_from(ts, k + 1, hi, false)
                }
            },
        }
    }
}

/// The stage `ts[lo..hi]` holds nothing but blanks.
pub open spec fn blank_run(ts: Seq<TokenV>, lo: nat, hi: nat) -> bool {
    forall|k: int| lo <= k < hi ==> #[trigger] ts[k] == TokenV::Space
}

/// The commands of a pipeline after its stage `ts[lo..hi]` is added to `group`. A construct
/// that is not supported is reported before any word of the stage is parsed.
pub open spec fn stage_spec(
    ts: Seq<TokenV>,
    lo: nat,
    hi: nat,
    group: Seq<CommandV>,
    depth: nat,
) -> Result<Seq<CommandV>, Error>
    decreases budget(depth), 7int, 0int,
{
    if blank_run(ts, lo, hi) {
        Ok(group)
    } else {
        match unsupported_from(ts, lo, hi, true) {
            Some(f) => Err(Error::Unsupported(f)),
            None => match command_from(ts, lo, lo, hi, None, Seq::empty(), Seq::empty(), depth) {
                Ok(c) => Ok(group.push(c)),
                Err(e) => Err(e),
            },
        }
    }
}

/// The command groups after the pipeline `group` is added: nothing for no command, a single
/// command for one, a pipeline for more.
pub open spec fn group_spec(group: Seq<CommandV>, tree: Seq<CommandTypeV>) -> Seq<CommandTypeV> {
    if group.len() == 0 {
        tree
    } else if group.len() == 1 {
        tree.push(CommandTypeV::Single(group[0]))
    } else {
        tree.push(CommandTypeV::Pipeline(group))
    }
}

/// The tree of the tokens `ts` from index `i` on; the current stage started at `start`.
pub open spec fn tokens_from(
    ts: Seq<TokenV>,
    i: nat,
    start: nat,
    group: Seq<CommandV>,
    tree: Seq<CommandTypeV>,
    depth: nat,
) -> Result<TreeV, Error>
    decreases budget(depth), 8int, ts.len() - i,
{
    if i >= ts.len() {
        match stage_spec(ts, start, ts.len(), group, depth) {
            Ok(g) => Ok(TreeV { commands: group_spec(g, tree) }),
            Err(e) => Err(e),
        }
    } else if ts[i as int] == TokenV::Pipe {
        match stage_spec(ts, start, i, group, depth) {
            Ok(g) => tokens_from(ts, i + 1, i + 1, g, tree, depth),
            Err(e) => Err(e),
        }
    } else if ts[i as int] == TokenV::Semicolon {
        match stage_spec(ts, start, i, group, depth) {
            Ok(g) => tokens_from(ts, i + 1, i + 1, Seq::empty(), group_spec(g, tree), depth),
            Err(e) => Err(e),
        }
    } else {
        tokens_from(ts, i + 1, start, group, tree, depth)
    }
}

/// The tree of a token sequence: split on `;` into groups and on `|` into stages; blank
/// stages are dropped.
pub open spec fn parse_tokens_spec(ts: Seq<TokenV>, depth: nat) -> Result<TreeV, Error>
    decreases budget(depth), 9int, 0int,
{
    tokens_from(ts, 0, 0, Seq::empty(), Seq::empty(), depth)
}

/// The tree of the text `s`, found at substitution depth `depth`.
pub open spec fn parse_spec(s: Seq<char>, depth: nat) -> Result<TreeV, Error>
    decreases budget(depth), 10int, 0int,
{
    let ts = lex_spec(s);
    if has_unclosed(ts) {
        Err(Error::Syntax(SyntaxError::UnterminatedQuote))
    } else {
        parse_tokens_spec(ts, depth)
    }
}

pub open spec fn tree_result_v(r: Result<SyntaxTree, Error>) -> Result<TreeV, Error> {
    match r {
        Ok(t) => Ok(t@),
        Err(e) => Err(e),
    }
}

pub open spec fn word_result_v(r: Result<Word, Error>) -> Result<WordV, Error> {
    match r {
        Ok(w) => Ok(w@),
        Err(e) => Err(e),
    }
}

pub open spec fn meta_result_v(r: Result<Meta, Error>) -> Result<MetaV, Error> {
    match r {
        Ok(m) => Ok(m@),
        Err(e) => Err(e),
    }
}

pub open spec fn command_result_v(r: Result<Command, Error>) -> Result<CommandV, Error> {
    match r {
        Ok(c) => Ok(c@),
        Err(e) => Err(e),
    }
}

pub open spec fn opt_word_v(w: Option<Word>) -> Option<WordV> {
    match w {
        Some(w) => Some(w@),
        None => None,
    }
}

fn is_name_char_exec(c: char) -> (r: bool)
    ensures
        r == is_name_char(c),
{
    ('a' <= c && c <= 'z') || ('A' <= c && c <= 'Z') || ('0' <= c && c <= '9') || c == '_'
}

fn scan_name_end(s: &Vec<char>, start: usize) -> (e: usize)
    requires
        start <= s@.len(),
    ensures
        e == name_end(s@, start as nat),
        start <= e <= s@.len(),
        start < s@.len() && is_name_char(s@[start as int]) ==> e > start,
{
    let mut i = start;
    while i < s.len() && is_name_char_exec(s[i])
        invariant
            start <= i <= s@.len(),
            name_end(s@, i as nat) == name_end(s@, start as nat),
        decreases s@.len() - i,
    {
        i += 1;
    }
    i
}

fn scan_subst_close(s: &Vec<char>, start: usize) -> (r: Option<usize>)
    requires
        start <= s@.len(),
    ensures
        match r {
            Some(c) => subst_close(s@, start as nat, 0) == Some(c as nat) && start <= c < s@.len()
                && s@[c as int] == ')',
            None => subst_close(s@, start as nat, 0) is None,
        },
{
    let mut i = start;
    let mut level: usize = 0;
    while i < s.len()
        invariant
            start <= i <= s@.len(),
            level <= i,
            subst_close(s@, i as nat, level as nat) == subst_close(s@, start as nat, 0),
        decreases s@.len() - i,
    {
        if s[i] == ')' {
            if level == 0 {
                return Some(i);
            }
            level -= 1;
            i += 1;
        } else if s[i] == '$' && i + 1 < s.len() && s[i + 1] == '(' {
            level += 1;
            i += 2;
        } else {
            i += 1;
        }
    }
    None
}

fn scan_glob_end(s: &Vec<char>, start: usize) -> (e: usize)
    requires
        start <= s@.len(),
    ensures
        e == glob_end(s@, start as nat),
        start <= e <= s@.len(),
{
    let mut i = start;
    while i < s.len() && !is_whitespace_char(s[i]) && s[i] != '/'
        invariant
            start <= i <= s@.len(),
            glob_end(s@, i as nat) == glob_end(s@, start as nat),
        decreases s@.len() - i,
    {
        i += 1;
    }
    i
}

fn double_star_in(s: &Vec<char>, lo: usize, hi: usize) -> (r: bool)
    requires
        lo <= hi <= s@.len(),
    ensures
        r == has_double_star(s@.subrange(lo as int, hi as int)),
{
    let ghost p = s@.subrange(lo as int, hi as int);
    let n = s.len();
    let mut i = lo;
    while i < hi && i + 1 < hi
        invariant
            lo <= i <= hi <= s@.len(),
            n == s@.len(),
            p == s@.subrange(lo as int, hi as int),
            forall|k: int| 0 <= k < i - lo ==> !(#[trigger] p[k] == '*' && p[k + 1] == '*'),
        decreases hi - i,
    {
        if s[i] == '*' && s[i + 1] == '*' {
            assert(p[i - lo] == '*' && p[i - lo + 1] == '*');
            return true;
        }
        i += 1;
    }
    false
}

fn tilde_at_exec(s: &Vec<char>, i: usize) -> (r: bool)
    requires
        i < s@.len(),
    ensures
        r == tilde_at(s@, i as int),
{
    let n = s.len();
    s[i] == '~' && (i == 0 || s[i - 1] == ' ' || s[i - 1] == '=') && (i + 1 == s.len() || s[i
        + 1] == ' ' || s[i + 1] == '/')
}

proof fn lemma_push_span(s: Seq<char>, acc: Seq<ExpansionV>, i: nat, e: nat, x: ExpansionV)
    requires
        spans_ordered(s, acc, i),
        i < e <= s.len(),
        span(x) == (byte_pos(s, i as int), (byte_pos(s, e as int) - 1) as nat),
    ensures
        spans_ordered(s, acc.push(x), e),
{
    reveal(spans_ordered);
    lemma_byte_pos_mono(s, i as int, e as int);
    lemma_char_index_of_byte_pos(s, i as int);
    lemma_char_index_of_byte_pos(s, e as int);
    let r = acc.push(x);
    assert(char_span(s, x) == (i as int, e - 1));
    assert forall|k: int| 0 <= k < r.len() - 1 implies char_span(s, #[trigger] r[k]).1 < char_span(
        s,
        r[k + 1],
    ).0 by {
        if k < acc.len() - 1 {
            assert(r[k] == acc[k] && r[k + 1] == acc[k + 1]);
        } else {
            assert(r[k] == acc[k]);
        }
    }
}

/// Scans the text `s` for the expansions that `mode` allows, and parses the text of each
/// command substitution at depth `depth + 1`.
pub fn parse_word(s: &Vec<char>, mode: Mode, depth: usize) -> (r: Result<Word, Error>)
    requires
        depth <= MAX_NESTING_DEPTH,
        byte_len(s@) <= usize::MAX,
    ensures
        word_result_v(r) == word_spec(s@, mode, depth as nat),
        r matches Ok(w) ==> w.wf(),
    decreases MAX_NESTING_DEPTH - depth, 3usize,
{
    if mode == Mode::Literal {
        let w = Word { name: string_from(s), expansions: Vec::new() };
        assert(expansions_v(w.expansions@) =~= Seq::empty());
        proof {
            reveal(spans_ordered);
        }
        return Ok(w);
    }
    let mut expansions: Vec<Expansion> = Vec::new();
    let mut i: usize = 0;
    let mut b: usize = 0;
    assert(expansions_v(expansions@) =~= Seq::empty());
    assert(s@.subrange(0, 0) =~= Seq::<char>::empty());
    proof {
        reveal(spans_ordered);
    }
    while i < s.len()
        invariant
            i <= s@.len(),
            b == byte_pos(s@, i as int),
            byte_len(s@) <= usize::MAX,
            depth <= MAX_NESTING_DEPTH,
            mode != Mode::Literal,
            spans_ordered(s@, expansions_v(expansions@), i as nat),
            forall|k: int| 0 <= k < expansions@.len() ==> live(#[trigger] expansions@[k]),
            scan_from(s@, i as nat, mode, expansions_v(expansions@), depth as nat) == scan_from(
                s@,
                0,
                mode,
                Seq::empty(),
                depth as nat,
            ),
        decreases s@.len() - i,
    {
        let ghost acc = expansions_v(expansions@);
        proof {
            lemma_byte_pos_step(s@, i as int);
            lemma_byte_pos_mono(s@, i + 1, s@.len() as int);
            lemma_marks_width();
        }
        if s[i] == '$' && i + 1 < s.len() && is_name_char_exec(s[i + 1]) {
            let e = scan_name_end(s, i + 1);
            let be = advance_bytes(s, i, b, e);
            proof {
                lemma_byte_pos_mono(s@, i as int, e as int);
            }
            let p = Expansion::Parameter {
                range: RangeInclusive::new(b, be - 1),
                name: string_of(s, i + 1, e),
            };
            expansions.push(p);
            assert(expansions_v(expansions@) =~= acc.push(p@));
            proof {
                lemma_push_span(s@, acc, i as nat, e as nat, p@);
            }
            assert(expansions@[expansions@.len() - 1] == p);
            i = e;
            b = be;
        } else if s[i] == '$' && i + 1 < s.len() && s[i + 1] == '(' {
            match scan_subst_close(s, i + 2) {
                None => {
                    return Err(Error::Syntax(SyntaxError::UnterminatedSubstitution));
                },
                Some(c) => {
                    if depth >= MAX_NESTING_DEPTH {
                        return Err(Error::NestingLimitExceeded);
                    }
                    let mut inner: Vec<char> = Vec::new();
                    concat_chars(&mut inner, s, i + 2, c);
                    assert(inner@ =~= s@.subrange(i + 2 as int, c as int));
                    match parse_chars(&inner, depth + 1) {
                        Err(err) => {
                            return Err(err);
                        },
                        Ok(t) => {
                            let bc = advance_bytes(s, i, b, c);
                            proof {
                                lemma_byte_pos_step(s@, c as int);
                                lemma_byte_pos_mono(s@, c + 1, s@.len() as int);
                            }
                            let x = Expansion::Command { range: RangeInclusive::new(b, bc), ast: t };
                            expansions.push(x);
                            assert(expansions_v(expansions@) =~= acc.push(x@));
                            proof {
                                lemma_push_span(s@, acc, i as nat, (c + 1) as nat, x@);
                            }
                            assert(expansions@[expansions@.len() - 1] == x);
                            i = c + 1;
                            b = bc + 1;
                        },
                    }
                },
            }
        } else if s[i] == '$' {
            return Err(Error::Syntax(SyntaxError::StrayDollar));
        } else if mode == Mode::Full && s[i] == '*' {
            let e = scan_glob_end(s, i + 1);
            let be = advance_bytes(s, i, b, e);
            proof {
                lemma_byte_pos_mono(s@, i as int, e as int);
            }
            let g = Expansion::Glob {
                range: RangeInclusive::new(b, be - 1),
                pattern: string_of(s, i, e),
                recursive: double_star_in(s, i, e),
            };
            expansions.push(g);
            assert(expansions_v(expansions@) =~= acc.push(g@));
            proof {
                lemma_push_span(s@, acc, i as nat, e as nat, g@);
            }
            assert(expansions@[expansions@.len() - 1] == g);
            i = e;
            b = be;
        } else if mode == Mode::Full && tilde_at_exec(s, i) {
            let t = Expansion::Tilde { index: b };
            expansions.push(t);
            assert(expansions_v(expansions@) =~= acc.push(t@));
            proof {
                lemma_push_span(s@, acc, i as nat, (i + 1) as nat, t@);
            }
            assert(expansions@[expansions@.len() - 1] == t);
            b = b + char_width(s[i]);
            i += 1;
        } else {
            proof {
                lemma_spans_grow(s@, acc, i as nat, (i + 1) as nat);
            }
            b = b + char_width(s[i]);
            i += 1;
        }
    }
    Ok(Word { name: string_from(s), expansions })
}

/// Parses the text `s`, found at substitution depth `depth`.
pub fn parse_chars(s: &Vec<char>, depth: usize) -> (r: Result<SyntaxTree, Error>)
    requires
        depth <= MAX_NESTING_DEPTH,
    ensures
        tree_result_v(r) == parse_spec(s@, depth as nat),
        r matches Ok(t) ==> t.wf(),
    decreases MAX_NESTING_DEPTH - depth, 10usize,
{
    let tokens = lex_chars(s);
    if any_unclosed(&tokens) {
        return Err(Error::Syntax(SyntaxError::UnterminatedQuote));
    }
    parse_tokens(&tokens, depth)
}

/// Parses one line of input.
pub fn parse(line: &str) -> (r: Result<SyntaxTree, Error>)
    ensures
        tree_result_v(r) == parse_spec(line@, 0),
        r matches Ok(t) ==> t.wf(),
        r matches Ok(t) ==> suffixes_free_of_assignments(t@.commands),
{
    proof {
        lemma_assignments_only_before_name(line@, 0);
    }
    let chars = chars_of(line);
    parse_chars(&chars, 0)
}

fn parse_tokens(tokens: &Vec<Token>, depth: usize) -> (r: Result<SyntaxTree, Error>)
    requires
        depth <= MAX_NESTING_DEPTH,
    ensures
        tree_result_v(r) == parse_tokens_spec(tokens_view(tokens@), depth as nat),
        r matches Ok(t) ==> t.wf(),
    decreases MAX_NESTING_DEPTH - depth, 9usize,
{
    let ghost ts = tokens_view(tokens@);
    let mut commands: Vec<CommandType> = Vec::new();
    let mut group: Vec<Command> = Vec::new();
    let mut start: usize = 0;
    let mut i: usize = 0;
    assert(commands_v(group@) =~= Seq::empty());
    assert(command_types_v(commands@) =~= Seq::empty());
    while i < tokens.len()
        invariant
            start <= i <= tokens@.len(),
            depth <= MAX_NESTING_DEPTH,
            ts == tokens_view(tokens@),
            forall|k: int| 0 <= k < group@.len() ==> (#[trigger] group@[k]).wf(),
            forall|k: int| 0 <= k < commands@.len() ==> (#[trigger] commands@[k]).wf(),
            tokens_from(
                ts,
                i as nat,
                start as nat,
                commands_v(group@),
                command_types_v(commands@),
                depth as nat,
            ) == parse_tokens_spec(ts, depth as nat),
        decreases tokens@.len() - i,
    {
        match &tokens[i] {
            Token::Pipe => {
                match parse_stage(tokens, start, i, &mut group, depth) {
                    Err(e) => {
                        return Err(e);
                    },
                    Ok(()) => {},
                }
                start = i + 1;
            },
            Token::Semicolon => {
                match parse_stage(tokens, start, i, &mut group, depth) {
                    Err(e) => {
                        return Err(e);
                    },
                    Ok(()) => {},
                }
                let g = group;
                group = Vec::new();
                push_group(g, &mut commands);
                assert(commands_v(group@) =~= Seq::empty());
                start = i + 1;
            },
            _ => {},
        }
        i += 1;
    }
    match parse_stage(tokens, start, tokens.len(), &mut group, depth) {
        Err(e) => {
            return Err(e);
        },
        Ok(()) => {},
    }
    push_group(group, &mut commands);
    Ok(SyntaxTree { commands })
}

/// Adds the pipeline `group` to `commands`, if it holds any command.
fn push_group(group: Vec<Command>, commands: &mut Vec<CommandType>)
    requires
        forall|k: int| 0 <= k < group@.len() ==> (#[trigger] group@[k]).wf(),
        forall|k: int| 0 <= k < old(commands)@.len() ==> (#[trigger] old(commands)@[k]).wf(),
    ensures
        forall|k: int| 0 <= k < final(commands)@.len() ==> (#[trigger] final(commands)@[k]).wf(),
        command_types_v(final(commands)@) == group_spec(
            commands_v(group@),
            command_types_v(old(commands)@),
        ),
{
    let ghost old_v = command_types_v(commands@);
    let ghost g = commands_v(group@);
    if group.len() == 1 {
        let mut group = group;
        match group.pop() {
            Some(c) => {
                let x = CommandType::Single(c);
                commands.push(x);
                assert(command_types_v(commands@) =~= old_v.push(x@));
            },
            None => {},
        }
    } else if group.len() >= 2 {
        let x = CommandType::Pipeline(group);
        commands.push(x);
        assert(command_types_v(commands@) =~= old_v.push(x@));
    }
}

/// Parses the pipeline stage `tokens[lo..hi]` and adds its command to `group`; a stage of
/// blanks adds nothing.
fn parse_stage(
    tokens: &Vec<Token>,
    lo: usize,
    hi: usize,
    group: &mut Vec<Command>,
    depth: usize,
) -> (r: Result<(), Error>)
    requires
        lo <= hi <= tokens@.len(),
        depth <= MAX_NESTING_DEPTH,
        forall|k: int| 0 <= k < old(group)@.len() ==> (#[trigger] old(group)@[k]).wf(),
    ensures
        forall|k: int| 0 <= k < final(group)@.len() ==> (#[trigger] final(group)@[k]).wf(),
        match r {
            Ok(_) => stage_spec(
                tokens_view(tokens@),
                lo as nat,
                hi as nat,
                commands_v(old(group)@),
                depth as nat,
            ) == Ok::<Seq<CommandV>, Error>(commands_v(final(group)@)),
            Err(e) => stage_spec(
                tokens_view(tokens@),
                lo as nat,
                hi as nat,
                commands_v(old(group)@),
                depth as nat,
            ) == Err::<Seq<CommandV>, Error>(e),
        },
    decreases MAX_NESTING_DEPTH - depth, 8usize,
{
    let ghost ts = tokens_view(tokens@);
    let ghost old_v = commands_v(group@);
    let mut k = lo;
    while k < hi && is_space(&tokens[k])
        invariant
            lo <= k <= hi <= tokens@.len(),
            ts == tokens_view(tokens@),
            forall|j: int| lo <= j < k ==> #[trigger] ts[j] == TokenV::Space,
        decreases hi - k,
    {
        k += 1;
    }
    if k == hi {
        return Ok(());
    }
    assert(ts[k as int] != TokenV::Space);
    match find_unsupported(tokens, lo, hi) {
        Some(f) => {
            return Err(Error::Unsupported(f));
        },
        None => {},
    }
    match parse_command(tokens, lo, hi, depth) {
        Err(e) => Err(e),
        Ok(c) => {
            group.push(c);
            assert(commands_v(group@) =~= old_v.push(c@));
            Ok(())
        },
    }
}

fn is_space(t: &Token) -> (r: bool)
    ensures
        r == (t@ == TokenV::Space),
{
    match t {
        Token::Space => true,
        _ => false,
    }
}

/// The first construct of the stage `tokens[lo..hi]` that is not supported.
fn find_unsupported(tokens: &Vec<Token>, lo: usize, hi: usize) -> (r: Option<Feature>)
    requires
        lo <= hi <= tokens@.len(),
    ensures
        r == unsupported_from(tokens_view(tokens@), lo as nat, hi as nat, true),
{
    let ghost ts = tokens_view(tokens@);
    let mut k = lo;
    let mut at_start = true;
    while k < hi
        invariant
            lo <= k <= hi <= tokens@.len(),
            ts == tokens_view(tokens@),
            unsupported_from(ts, k as nat, hi as nat, at_start) == unsupported_from(
                ts,
                lo as nat,
                hi as nat,
                true,
            ),
        decreases hi - k,
    {
        match &tokens[k] {
            Token::And => {
                return Some(Feature::And);
            },
            Token::Or => {
                return Some(Feature::Or);
            },
            Token::Ampersand => {
                return Some(Feature::Background);
            },
            Token::Space => {},
            t => {
                match t {
                    Token::String(text) => {
                        let cs = chars_of(text.as_str());
                        if first_char_is(&cs, '(') {
                            return Some(Feature::Subshell);
                        }
                        if at_start && cs.len() == 1 && cs[0] == '{' {
                            assert(cs@ =~= seq!['{']);
                            return Some(Feature::Grouping);
                        }
                        proof {
                            if cs@ == seq!['{'] {
                                assert(cs@.len() == 1 && cs@[0] == '{');
                            }
                        }
                    },
                    _ => {},
                }
                at_start = false;
            },
        }
        k += 1;
    }
    None
}

fn first_char_is(t: &Vec<char>, c: char) -> (r: bool)
    ensures
        r == (t@.len() > 0 && t@[0] == c),
{
    t.len() > 0 && t[0] == c
}

/// Parses the command of the pipeline stage `tokens[lo..hi]`.
fn parse_command(tokens: &Vec<Token>, lo: usize, hi: usize, depth: usize) -> (r: Result<
    Command,
    Error,
>)
    requires
        lo <= hi <= tokens@.len(),
        depth <= MAX_NESTING_DEPTH,
    ensures
        command_result_v(r) == command_from(
            tokens_view(tokens@),
            lo as nat,
            lo as nat,
            hi as nat,
            None,
            Seq::empty(),
            Seq::empty(),
            depth as nat,
        ),
        r matches Ok(c) ==> c.wf(),
        r matches Ok(c) ==> no_assignments(c@.suffixes),
    decreases MAX_NESTING_DEPTH - depth, 7usize,
{
    proof {
        lemma_command_suffixes(
            tokens_view(tokens@),
            lo as nat,
            lo as nat,
            hi as nat,
            None,
            Seq::empty(),
            Seq::empty(),
            depth as nat,
        );
    }
    let ghost ts = tokens_view(tokens@);
    let mut name: Option<Word> = None;
    let mut prefixes: Vec<Meta> = Vec::new();
    let mut suffixes: Vec<Meta> = Vec::new();
    let mut i = lo;
    assert(metas_v(prefixes@) =~= Seq::empty());
    assert(metas_v(suffixes@) =~= Seq::empty());
    while i < hi
        invariant
            lo <= i <= hi <= tokens@.len(),
            depth <= MAX_NESTING_DEPTH,
            ts == tokens_view(tokens@),
            name matches Some(w) ==> w.wf(),
            forall|k: int| 0 <= k < prefixes@.len() ==> meta_wf(#[trigger] prefixes@[k]),
            forall|k: int| 0 <= k < suffixes@.len() ==> meta_wf(#[trigger] suffixes@[k]),
            command_from(
                ts,
                lo as nat,
                i as nat,
                hi as nat,
                opt_word_v(name),
                metas_v(prefixes@),
                metas_v(suffixes@),
                depth as nat,
            ) == command_from(
                ts,
                lo as nat,
                lo as nat,
                hi as nat,
                None,
                Seq::empty(),
                Seq::empty(),
                depth as nat,
            ),
        decreases hi - i,
    {
        let ghost pre = metas_v(prefixes@);
        let ghost suf = metas_v(suffixes@);
        let t = &tokens[i];
        match t {
            Token::Space | Token::Pipe | Token::Semicolon => {},
            Token::And => {
                return Err(Error::Unsupported(Feature::And));
            },
            Token::Or => {
                return Err(Error::Unsupported(Feature::Or));
            },
            Token::Ampersand => {
                return Err(Error::Unsupported(Feature::Background));
            },
            _ => {
                match parse_meta(t, name.is_none(), depth) {
                    Err(e) => {
                        return Err(e);
                    },
                    Ok(m) => {
                        if name.is_none() {
                            match m {
                                Meta::Word(w) => {
                                    name = Some(w);
                                },
                                _ => {
                                    prefixes.push(m);
                                    assert(metas_v(prefixes@) =~= pre.push(m@));
                                },
                            }
                        } else {
                            suffixes.push(m);
                            assert(metas_v(suffixes@) =~= suf.push(m@));
                        }
                    },
                }
            },
        }
        i += 1;
    }
    match name {
        Some(w) => Ok(Command { name: w, prefixes, suffixes }),
        None => Err(Error::Syntax(SyntaxError::MissingCommand { start: lo, end: hi })),
    }
}

fn scan_first_eq(s: &Vec<char>) -> (k: usize)
    ensures
        k == first_eq(s@, 0),
        k <= s@.len(),
{
    let mut i: usize = 0;
    while i < s.len() && s[i] != '='
        invariant
            i <= s@.len(),
            first_eq(s@, i as nat) == first_eq(s@, 0),
        decreases s@.len() - i,
    {
        i += 1;
    }
    i
}

fn as_word_exec(r: Result<Word, Error>) -> (m: Result<Meta, Error>)
    requires
        r matches Ok(w) ==> w.wf(),
    ensures
        m matches Ok(x) ==> meta_wf(x),
        meta_result_v(m) == as_word(word_result_v(r)),
{
    match r {
        Ok(w) => Ok(Meta::Word(w)),
        Err(e) => Err(e),
    }
}

/// The metadata of the unquoted word `s`.
fn parse_string_meta(s: &Vec<char>, is_prefix: bool, depth: usize) -> (r: Result<Meta, Error>)
    requires
        depth <= MAX_NESTING_DEPTH,
        byte_len(s@) <= usize::MAX,
    ensures
        meta_result_v(r) == string_meta_spec(s@, is_prefix, depth as nat),
        r matches Ok(m) ==> meta_wf(m),
    decreases MAX_NESTING_DEPTH - depth, 4usize,
{
    let k = scan_first_eq(s);
    if is_prefix && 0 < k && k < s.len() {
        let mut value: Vec<char> = Vec::new();
        concat_chars(&mut value, s, k + 1, s.len());
        assert(value@ =~= s@.subrange(k + 1 as int, s@.len() as int));
        proof {
            lemma_byte_len_suffix(s@, k + 1);
        }
        match parse_word(&value, Mode::Full, depth) {
            Ok(v) => {
                let var = Word { name: string_of(s, 0, k), expansions: Vec::new() };
                assert(var@.expansions =~= Seq::empty());
                proof {
                    lemma_no_spans(var@.name, var@.expansions, var@.name.len());
                }
                Ok(Meta::Assignment(var, v))
            },
            Err(e) => Err(e),
        }
    } else {
        as_word_exec(parse_word(s, Mode::Full, depth))
    }
}

/// The descriptor word of an output redirection, if it names one.
fn parse_from(from: &Option<String>, depth: usize) -> (r: Result<Option<Word>, Error>)
    requires
        depth <= MAX_NESTING_DEPTH,
    ensures
        match r {
            Ok(Some(w)) => from_spec(crate::token::opt_view(*from), depth as nat) == Ok::<
                Option<WordV>,
                Error,
            >(Some(w@)),
            Ok(None) => from_spec(crate::token::opt_view(*from), depth as nat) == Ok::<
                Option<WordV>,
                Error,
            >(None),
            Err(e) => from_spec(crate::token::opt_view(*from), depth as nat) == Err::<
                Option<WordV>,
                Error,
            >(e),
        },
        r matches Ok(Some(w)) ==> w.wf(),
    decreases MAX_NESTING_DEPTH - depth, 4usize,
{
    match from {
        None => Ok(None),
        Some(f) => {
            let fs = chars_of(f.as_str());
            match parse_word(&fs, Mode::Full, depth) {
                Ok(fw) => Ok(Some(fw)),
                Err(e) => Err(e),
            }
        },
    }
}

/// The metadata of an output redirection.
fn parse_output_meta(from: &Option<String>, to: &String, append: bool, depth: usize) -> (r:
    Result<Meta, Error>)
    requires
        depth <= MAX_NESTING_DEPTH,
    ensures
        meta_result_v(r) == output_meta_spec(
            crate::token::opt_view(*from),
            to@,
            append,
            depth as nat,
        ),
        r matches Ok(m) ==> meta_wf(m),
    decreases MAX_NESTING_DEPTH - depth, 5usize,
{
    let t = chars_of(to.as_str());
    if t.len() == 0 {
        return Err(Error::Syntax(SyntaxError::MissingRedirectTarget));
    }
    match parse_from(from, depth) {
        Err(e) => Err(e),
        Ok(from_word) => match parse_word(&t, Mode::Full, depth) {
            Ok(w) => Ok(Meta::Redirect(Redirect::Output { from: from_word, to: w, append })),
            Err(e) => Err(e),
        },
    }
}

/// The metadata that a word or redirection token stands for; `is_prefix` when no command
/// name precedes it.
fn parse_meta(token: &Token, is_prefix: bool, depth: usize) -> (r: Result<Meta, Error>)
    requires
        depth <= MAX_NESTING_DEPTH,
    ensures
        meta_result_v(r) == meta_spec(token@, is_prefix, depth as nat),
        r matches Ok(m) ==> meta_wf(m),
    decreases MAX_NESTING_DEPTH - depth, 6usize,
{
    match token {
        Token::String(text) => {
            let s = chars_of(text.as_str());
            parse_string_meta(&s, is_prefix, depth)
        },
        Token::SingleQuotedString(text, closed) => {
            if *closed {
                let w = Word { name: text.clone(), expansions: Vec::new() };
                assert(w@.expansions =~= Seq::empty());
                proof {
                    lemma_no_spans(w@.name, w@.expansions, w@.name.len());
                }
                Ok(Meta::Word(w))
            } else {
                Err(Error::Syntax(SyntaxError::UnterminatedQuote))
            }
        },
        Token::DoubleQuotedString(text, closed) => {
            if *closed {
                let s = chars_of(text.as_str());
                as_word_exec(parse_word(&s, Mode::ParametersAndCommands, depth))
            } else {
                Err(Error::Syntax(SyntaxError::UnterminatedQuote))
            }
        },
        Token::RedirectInput(to) => {
            let t = chars_of(to.as_str());
            if t.len() == 0 {
                Err(Error::Syntax(SyntaxError::MissingRedirectTarget))
            } else {
                match parse_word(&t, Mode::Full, depth) {
                    Ok(w) => Ok(Meta::Redirect(Redirect::Input { to: w })),
                    Err(e) => Err(e),
                }
            }
        },
        Token::RedirectOutput(from, to, _, append) => parse_output_meta(from, to, *append, depth),
        _ => {
            let w = Word { name: String::new(), expansions: Vec::new() };
            assert(w@.expansions =~= Seq::empty());
            proof {
                lemma_no_spans(w@.name, w@.expansions, w@.name.len());
            }
            assert(w@.name =~= Seq::empty());
            Ok(Meta::Word(w))
        },
    }
}
/// Every tilde expansion among `es` stands at the byte offset of a `~` of `s` that
/// [`tilde_at`] admits.
pub open spec fn tildes_flanked(s: Seq<char>, es: Seq<ExpansionV>) -> bool {
    forall|k: int|
        0 <= k < es.len() && (#[trigger] es[k]) is Tilde ==> {
            let i = char_index(s, es[k]->Tilde_index);
            tilde_at(s, i as int) && byte_pos(s, i as int) == es[k]->Tilde_index
        }
}

proof fn lemma_scan_tildes(s: Seq<char>, i: nat, mode: Mode, acc: Seq<ExpansionV>, depth: nat)
    requires
        tildes_flanked(s, acc),
    ensures
        scan_from(s, i, mode, acc, depth) matches Ok(es) ==> tildes_flanked(s, es),
    decreases s.len() - i,
{
    if i < s.len() {
        if s[i as int] == '$' && i + 1 < s.len() && is_name_char(s[i + 1 as int]) {
            let e = name_end(s, i + 1);
            if !(e <= i || e > s.len()) {
                let p = ExpansionV::Parameter {
                    start: byte_pos(s, i as int),
                    end: (byte_pos(s, e as int) - 1) as nat,
                    name: s.subrange(i + 1 as int, e as int),
                };
                assert(tildes_flanked(s, acc.push(p)));
                lemma_scan_tildes(s, e, mode, acc.push(p), depth);
            }
        } else if opens_subst(s, i as int) {
            match subst_close(s, i + 2, 0) {
                None => {},
                Some(c) => {
                    if depth < MAX_NESTING_DEPTH && !(c < i + 2 || c >= s.len()) {
                        match parse_spec(s.subrange(i + 2 as int, c as int), depth + 1) {
                            Err(_) => {},
                            Ok(t) => {
                                let x = ExpansionV::Command {
                                    start: byte_pos(s, i as int),
                                    end: byte_pos(s, c as int),
                                    ast: t,
                                };
                                assert(tildes_flanked(s, acc.push(x)));
                                lemma_scan_tildes(s, c + 1, mode, acc.push(x), depth);
                            },
                        }
                    }
                },
            }
        } else if s[i as int] == '$' {
        } else if mode == Mode::Full && s[i as int] == '*' {
            let e = glob_end(s, i + 1);
            if !(e <= i || e > s.len()) {
                let p = s.subrange(i as int, e as int);
                let g = ExpansionV::Glob {
                    start: byte_pos(s, i as int),
                    end: (byte_pos(s, e as int) - 1) as nat,
                    pattern: p,
                    recursive: has_double_star(p),
                };
                assert(tildes_flanked(s, acc.push(g)));
                lemma_scan_tildes(s, e, mode, acc.push(g), depth);
            }
        } else if mode == Mode::Full && tilde_at(s, i as int) {
            let t = ExpansionV::Tilde { index: byte_pos(s, i as int) };
            lemma_char_index_of_byte_pos(s, i as int);
            assert(tildes_flanked(s, acc.push(t)));
            lemma_scan_tildes(s, i + 1, mode, acc.push(t), depth);
        } else {
            lemma_scan_tildes(s, i + 1, mode, acc, depth);
        }
    }
}

/// A word holds a tilde expansion only at the byte offset of a `~` that starts the word or
/// follows a blank or `=`, and that ends the word or is followed by a blank or `/`.
pub proof fn lemma_tilde_only_when_flanked(s: Seq<char>, mode: Mode, depth: nat)
    ensures
        word_spec(s, mode, depth) matches Ok(w) ==> tildes_flanked(s, w.expansions),
{
    lemma_scan_tildes(s, 0, mode, Seq::empty(), depth);
}

/// None of `ms` is an assignment.
pub open spec fn no_assignments(ms: Seq<MetaV>) -> bool {
    forall|k: int| 0 <= k < ms.len() ==> !((#[trigger] ms[k]) is Assignment)
}

/// No command of `cts`, single or in a pipeline, has an assignment among its suffixes.
pub open spec fn suffixes_free_of_assignments(cts: Seq<CommandTypeV>) -> bool {
    forall|k: int|
        0 <= k < cts.len() ==> match #[trigger] cts[k] {
            CommandTypeV::Single(c) => no_assignments(c.suffixes),
            CommandTypeV::Pipeline(cs) => forall|j: int|
                0 <= j < cs.len() ==> no_assignments((#[trigger] cs[j]).suffixes),
        }
}

proof fn lemma_meta_after_name(t: TokenV, depth: nat)
    ensures
        meta_spec(t, false, depth) matches Ok(m) ==> !(m is Assignment),
{
}

proof fn lemma_command_suffixes(
    ts: Seq<TokenV>,
    lo: nat,
    i: nat,
    hi: nat,
    name: Option<WordV>,
    pre: Seq<MetaV>,
    suf: Seq<MetaV>,
    depth: nat,
)
    requires
        no_assignments(suf),
    ensures
        command_from(ts, lo, i, hi, name, pre, suf, depth) matches Ok(c) ==> no_assignments(
            c.suffixes,
        ),
    decreases hi - i,
{
    if !(i >= hi || i >= ts.len()) {
        let t = ts[i as int];
        match t {
            TokenV::Space | TokenV::Pipe | TokenV::Semicolon => {
                lemma_command_suffixes(ts, lo, i + 1, hi, name, pre, suf, depth);
            },
            TokenV::And | TokenV::Or | TokenV::Ampersand => {},
            _ => {
                {
                    match meta_spec(t, name is None, depth) {
                        Err(_) => {},
                        Ok(m) => {
                            if name is None {
                                match m {
                                    MetaV::Word(w) => {
                                        lemma_command_suffixes(
                                            ts,
                                            lo,
                                            i + 1,
                                            hi,
                                            Some(w),
                                            pre,
                                            suf,
                                            depth,
                                        );
                                    },
                                    _ => {
                                        lemma_command_suffixes(
                                            ts,
                                            lo,
                                            i + 1,
                                            hi,
                                            name,
                                            pre.push(m),
                                            suf,
                                            depth,
                                        );
                                    },
                                }
                            } else {
                                lemma_meta_after_name(t, depth);
                                assert(no_assignments(suf.push(m)));
                                lemma_command_suffixes(
                                    ts,
                                    lo,
                                    i + 1,
                                    hi,
                                    name,
                                    pre,
                                    suf.push(m),
                                    depth,
                                );
                            }
                        },
                    }
                }
            },
        }
    }
}

proof fn lemma_stage_suffixes(
    ts: Seq<TokenV>,
    lo: nat,
    hi: nat,
    group: Seq<CommandV>,
    depth: nat,
)
    requires
        forall|j: int| 0 <= j < group.len() ==> no_assignments((#[trigger] group[j]).suffixes),
    ensures
        stage_spec(ts, lo, hi, group, depth) matches Ok(g) ==> forall|j: int|
            0 <= j < g.len() ==> no_assignments((#[trigger] g[j]).suffixes),
{
    if !blank_run(ts, lo, hi) {
        lemma_command_suffixes(ts, lo, lo, hi, None, Seq::empty(), Seq::empty(), depth);
        match command_from(ts, lo, lo, hi, None, Seq::empty(), Seq::empty(), depth) {
            Ok(c) => {
                let g = group.push(c);
                assert forall|j: int| 0 <= j < g.len() implies no_assignments(
                    (#[trigger] g[j]).suffixes,
                ) by {
                    if j < group.len() {
                        assert(g[j] == group[j]);
                    }
                }
            },
            Err(_) => {},
        }
    }
}

proof fn lemma_group_suffixes(group: Seq<CommandV>, tree: Seq<CommandTypeV>)
    requires
        forall|j: int| 0 <= j < group.len() ==> no_assignments((#[trigger] group[j]).suffixes),
        suffixes_free_of_assignments(tree),
    ensures
        suffixes_free_of_assignments(group_spec(group, tree)),
{
    let r = group_spec(group, tree);
    assert forall|k: int| 0 <= k < r.len() implies match #[trigger] r[k] {
        CommandTypeV::Single(c) => no_assignments(c.suffixes),
        CommandTypeV::Pipeline(cs) => forall|j: int|
            0 <= j < cs.len() ==> no_assignments((#[trigger] cs[j]).suffixes),
    } by {
        if k < tree.len() {
            assert(r[k] == tree[k]);
        }
    }
}

proof fn lemma_tokens_suffixes(
    ts: Seq<TokenV>,
    i: nat,
    start: nat,
    group: Seq<CommandV>,
    tree: Seq<CommandTypeV>,
    depth: nat,
)
    requires
        forall|j: int| 0 <= j < group.len() ==> no_assignments((#[trigger] group[j]).suffixes),
        suffixes_free_of_assignments(tree),
    ensures
        tokens_from(ts, i, start, group, tree, depth) matches Ok(t) ==> suffixes_free_of_assignments(
            t.commands,
        ),
    decreases ts.len() - i,
{
    if i >= ts.len() {
        lemma_stage_suffixes(ts, start, ts.len(), group, depth);
        match stage_spec(ts, start, ts.len(), group, depth) {
            Ok(g) => lemma_group_suffixes(g, tree),
            Err(_) => {},
        }
    } else if ts[i as int] == TokenV::Pipe {
        lemma_stage_suffixes(ts, start, i, group, depth);
        match stage_spec(ts, start, i, group, depth) {
            Ok(g) => lemma_tokens_suffixes(ts, i + 1, i + 1, g, tree, depth),
            Err(_) => {},
        }
    } else if ts[i as int] == TokenV::Semicolon {
        lemma_stage_suffixes(ts, start, i, group, depth);
        match stage_spec(ts, start, i, group, depth) {
            Ok(g) => {
                lemma_group_suffixes(g, tree);
                lemma_tokens_suffixes(ts, i + 1, i + 1, Seq::empty(), group_spec(g, tree), depth);
            },
            Err(_) => {},
        }
    } else {
        lemma_tokens_suffixes(ts, i + 1, start, group, tree, depth);
    }
}

/// Assignments stand only before the command name: in a parsed line no command, single or
/// in a pipeline, has an assignment among its suffixes, whatever the shape of its words.
pub proof fn lemma_assignments_only_before_name(line: Seq<char>, depth: nat)
    ensures
        parse_spec(line, depth) matches Ok(t) ==> suffixes_free_of_assignments(t.commands),
{
    lemma_tokens_suffixes(lex_spec(line), 0, 0, Seq::empty(), Seq::empty(), depth);
}

/// The index after the scanning step that starts at `j`: past a parameter, a command
/// substitution or (in `Full` mode) a glob, and otherwise past one character.
pub open spec fn next_step(s: Seq<char>, j: nat, mode: Mode) -> nat {
    if s[j as int] == '$' && j + 1 < s.len() && is_name_char(s[j + 1 as int]) {
        name_end(s, j + 1)
    } else if opens_subst(s, j as int) {
        match subst_close(s, j + 2, 0) {
            Some(c) => c + 1,
            None => s.len(),
        }
    } else if mode == Mode::Full && s[j as int] == '*' {
        glob_end(s, j + 1)
    } else {
        j + 1
    }
}

/// Scanning from `j`, a step starts at `i`: the character `i` is not part of a parameter, a
/// command substitution or a glob that starts before it.
pub open spec fn step_starts_at(s: Seq<char>, j: nat, i: nat, mode: Mode) -> bool
    decreases s.len() - j,
{
    if j == i {
        true
    } else if j > i || j >= s.len() {
        false
    } else {
        let n = next_step(s, j, mode);
        if n <= j || n > s.len() {
            false
        } else {
            step_starts_at(s, n, i, mode)
        }
    }
}

proof fn lemma_name_end_bound(s: Seq<char>, i: nat)
    requires
        i <= s.len(),
    ensures
        i <= name_end(s, i) <= s.len(),
    decreases s.len() - i,
{
    if i < s.len() && is_name_char(s[i as int]) {
        lemma_name_end_bound(s, i + 1);
    }
}

proof fn lemma_glob_end_bound(s: Seq<char>, i: nat)
    requires
        i <= s.len(),
    ensures
        i <= glob_end(s, i) <= s.len(),
    decreases s.len() - i,
{
    if i < s.len() && !is_whitespace(s[i as int]) && s[i as int] != '/' {
        lemma_glob_end_bound(s, i + 1);
    }
}

proof fn lemma_subst_close_bound(s: Seq<char>, i: nat, level: nat)
    ensures
        subst_close(s, i, level) matches Some(c) ==> i <= c < s.len(),
    decreases s.len() - i,
{
    if i < s.len() {
        if s[i as int] == ')' {
            if level > 0 {
                lemma_subst_close_bound(s, i + 1, (level - 1) as nat);
            }
        } else if opens_subst(s, i as int) {
            lemma_subst_close_bound(s, i + 2, level + 1);
        } else {
            lemma_subst_close_bound(s, i + 1, level);
        }
    }
}

/// Scanning only adds expansions after those found so far.
proof fn lemma_scan_extends(s: Seq<char>, i: nat, mode: Mode, acc: Seq<ExpansionV>, depth: nat)
    ensures
        scan_from(s, i, mode, acc, depth) matches Ok(es) ==> (acc.len() <= es.len() && (forall|
            k: int,
        |
            0 <= k < acc.len() ==> es[k] == acc[k])),
    decreases s.len() - i,
{
    if i < s.len() {
        if s[i as int] == '$' && i + 1 < s.len() && is_name_char(s[i + 1 as int]) {
            let e = name_end(s, i + 1);
            if !(e <= i || e > s.len()) {
                let p = ExpansionV::Parameter {
                    start: byte_pos(s, i as int),
                    end: (byte_pos(s, e as int) - 1) as nat,
                    name: s.subrange(i + 1 as int, e as int),
                };
                lemma_scan_extends(s, e, mode, acc.push(p), depth);
            }
        } else if opens_subst(s, i as int) {
            match subst_close(s, i + 2, 0) {
                None => {},
                Some(c) => {
                    if depth < MAX_NESTING_DEPTH && !(c < i + 2 || c >= s.len()) {
                        match parse_spec(s.subrange(i + 2 as int, c as int), depth + 1) {
                            Err(_) => {},
                            Ok(t) => {
                                let x = ExpansionV::Command {
                                    start: byte_pos(s, i as int),
                                    end: byte_pos(s, c as int),
                                    ast: t,
                                };
                                lemma_scan_extends(s, c + 1, mode, acc.push(x), depth);
                            },
                        }
                    }
                },
            }
        } else if s[i as int] == '$' {
        } else if mode == Mode::Full && s[i as int] == '*' {
            let e = glob_end(s, i + 1);
            if !(e <= i || e > s.len()) {
                let p = s.subrange(i as int, e as int);
                let g = ExpansionV::Glob {
                    start: byte_pos(s, i as int),
                    end: (byte_pos(s, e as int) - 1) as nat,
                    pattern: p,
                    recursive: has_double_star(p),
                };
                lemma_scan_extends(s, e, mode, acc.push(g), depth);
            }
        } else if mode == Mode::Full && tilde_at(s, i as int) {
            lemma_scan_extends(
                s,
                i + 1,
                mode,
                acc.push(ExpansionV::Tilde { index: byte_pos(s, i as int) }),
                depth,
            );
        } else {
            lemma_scan_extends(s, i + 1, mode, acc, depth);
        }
    }
}

proof fn lemma_scan_finds_tilde(s: Seq<char>, j: nat, i: nat, acc: Seq<ExpansionV>, depth: nat)
    requires
        tilde_at(s, i as int),
        step_starts_at(s, j, i, Mode::Full),
    ensures
        scan_from(s, j, Mode::Full, acc, depth) matches Ok(es) ==> (exists|k: int|
            0 <= k < es.len() && es[k] == (ExpansionV::Tilde { index: byte_pos(s, i as int) })),
    decreases s.len() - j,
{
    let mode = Mode::Full;
    if j == i {
        let t = ExpansionV::Tilde { index: byte_pos(s, i as int) };
        lemma_scan_extends(s, i + 1, mode, acc.push(t), depth);
        if let Ok(es) = scan_from(s, j, mode, acc, depth) {
            assert(es[acc.len() as int] == acc.push(t)[acc.len() as int]);
        }
    } else {
        let n = next_step(s, j, mode);
        if s[j as int] == '$' && j + 1 < s.len() && is_name_char(s[j + 1 as int]) {
            lemma_name_end_bound(s, j + 1);
            let p = ExpansionV::Parameter {
                start: byte_pos(s, j as int),
                end: (byte_pos(s, n as int) - 1) as nat,
                name: s.subrange(j + 1 as int, n as int),
            };
            lemma_scan_finds_tilde(s, n, i, acc.push(p), depth);
        } else if opens_subst(s, j as int) {
            lemma_subst_close_bound(s, j + 2, 0);
            match subst_close(s, j + 2, 0) {
                None => {},
                Some(c) => {
                    if depth < MAX_NESTING_DEPTH {
                        match parse_spec(s.subrange(j + 2 as int, c as int), depth + 1) {
                            Err(_) => {},
                            Ok(t) => {
                                let x = ExpansionV::Command {
                                    start: byte_pos(s, j as int),
                                    end: byte_pos(s, c as int),
                                    ast: t,
                                };
                                lemma_scan_finds_tilde(s, c + 1, i, acc.push(x), depth);
                            },
                        }
                    }
                },
            }
        } else if s[j as int] == '$' {
        } else if s[j as int] == '*' {
            lemma_glob_end_bound(s, j + 1);
            let p = s.subrange(j as int, n as int);
            let g = ExpansionV::Glob {
                start: byte_pos(s, j as int),
                end: (byte_pos(s, n as int) - 1) as nat,
                pattern: p,
                recursive: has_double_star(p),
            };
            lemma_scan_finds_tilde(s, n, i, acc.push(g), depth);
        } else if tilde_at(s, j as int) {
            lemma_scan_finds_tilde(
                s,
                j + 1,
                i,
                acc.push(ExpansionV::Tilde { index: byte_pos(s, j as int) }),
                depth,
            );
        } else {
            lemma_scan_finds_tilde(s, j + 1, i, acc, depth);
        }
    }
}

/// In an unquoted word, a `~` that [`tilde_at`] admits, and that is not part of a
/// parameter, a command substitution or a glob that starts before it, is a tilde expansion.
pub proof fn lemma_flanked_tilde_expands(s: Seq<char>, i: nat, depth: nat)
    requires
        tilde_at(s, i as int),
        step_starts_at(s, 0, i, Mode::Full),
    ensures
        word_spec(s, Mode::Full, depth) matches Ok(w) ==> (exists|k: int|
            0 <= k < w.expansions.len() && w.expansions[k] == (ExpansionV::Tilde {
                index: byte_pos(s, i as int),
            })),
{
    lemma_scan_finds_tilde(s, 0, i, Seq::empty(), depth);
    if let Ok(w) = word_spec(s, Mode::Full, depth) {
        assert(scan_from(s, 0, Mode::Full, Seq::empty(), depth) == Ok::<Seq<ExpansionV>, Error>(
            w.expansions,
        ));
    }
}

} // verus!
