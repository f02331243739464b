//! The syntax tree: commands, words and the expansions found in them.

use core::ops::RangeInclusive;
use vstd::prelude::*;

use crate::text::{byte_pos, char_index};

verus! {

/// Relies on `RangeInclusive::start`, which returns the lower bound of a range that has not
/// been iterated.
pub assume_specification<Idx>[ RangeInclusive::<Idx>::start ](r: &RangeInclusive<Idx>) -> (s:
    &Idx)
    requires
        !r@.exhausted,
    ensures
        *s == r@.start,
;

/// Relies on `RangeInclusive::end`, which returns the upper bound of a range that has not
/// been iterated.
pub assume_specification<Idx>[ RangeInclusive::<Idx>::end ](r: &RangeInclusive<Idx>) -> (s:
    &Idx)
    requires
        !r@.exhausted,
    ensures
        *s == r@.end,
;

/// One line of input: its `;`-separated command groups, in order.
#[derive(Debug, PartialEq, Eq)]
pub struct SyntaxTree {
    pub commands: Vec<CommandType>,
}

/// A single command, or two or more commands joined by pipes.
#[derive(Debug, PartialEq, Eq)]
pub enum CommandType {
    Single(Command),
    Pipeline(Vec<Command>),
}

/// A command name with what precedes it (assignments, redirections) and what follows it
/// (arguments, redirections).
#[derive(Debug, PartialEq, Eq)]
pub struct Command {
    pub name: Word,
    pub prefixes: Vec<Meta>,
    pub suffixes: Vec<Meta>,
}

/// The text of a word and the expansions found in it, left to right. Positions are byte
/// offsets into `name`.
#[derive(Debug, PartialEq, Eq)]
pub struct Word {
    pub name: String,
    pub expansions: Vec<Expansion>,
}

#[derive(Debug, PartialEq, Eq)]
pub enum Meta {
    Redirect(Redirect),
    Word(Word),
    Assignment(Word, Word),
}

#[derive(Debug, PartialEq, Eq)]
pub enum Redirect {
    Output { from: Option<Word>, to: Word, append: bool },
    Input { to: Word },
}

#[derive(Debug, PartialEq, Eq)]
pub enum Expansion {
    /// `$name` over the given positions.
    Parameter { range: RangeInclusive<usize>, name: String },
    /// `$( ... )` over the given positions, with the command line inside it already parsed.
    Command { range: RangeInclusive<usize>, ast: SyntaxTree },
    /// A pattern starting with `*`; `recursive` when it holds `**`.
    Glob { range: RangeInclusive<usize>, pattern: String, recursive: bool },
    /// A `~` standing for the home directory.
    Tilde { index: usize },
}

pub struct TreeV {
    pub commands: Seq<CommandTypeV>,
}

pub enum CommandTypeV {
    Single(CommandV),
    Pipeline(Seq<CommandV>),
}

pub struct CommandV {
    pub name: WordV,
    pub prefixes: Seq<MetaV>,
    pub suffixes: Seq<MetaV>,
}

pub struct WordV {
    pub name: Seq<char>,
    pub expansions: Seq<ExpansionV>,
}

pub enum MetaV {
    Redirect(RedirectV),
    Word(WordV),
    Assignment(WordV, WordV),
}

pub enum RedirectV {
    Output { from: Option<WordV>, to: WordV, append: bool },
    Input { to: WordV },
}

pub enum ExpansionV {
    Parameter { start: nat, end: nat, name: Seq<char> },
    Command { start: nat, end: nat, ast: TreeV },
    Glob { start: nat, end: nat, pattern: Seq<char>, recursive: bool },
    Tilde { index: nat },
}

pub open spec fn tree_v(t: SyntaxTree) -> TreeV
    decreases t,
{
    TreeV { commands: command_types_v(t.commands@) }
}

pub open spec fn command_types_v(s: Seq<CommandType>) -> Seq<CommandTypeV>
    decreases s,
{
    Seq::new(
        s.len(),
        |i: int|
            if 0 <= i < s.len() {
                command_type_v(s[i])
            } else {
                CommandTypeV::Pipeline(Seq::empty())
            },
    )
}

pub open spec fn command_type_v(c: CommandType) -> CommandTypeV
    decreases c,
{
    match c {
        CommandType::Single(cmd) => CommandTypeV::Single(command_v(cmd)),
        CommandType::Pipeline(cmds) => CommandTypeV::Pipeline(commands_v(cmds@)),
    }
}

pub open spec fn commands_v(s: Seq<Command>) -> Seq<CommandV>
    decreases s,
{
    Seq::new(
        s.len(),
        |i: int|
            if 0 <= i < s.len() {
                command_v(s[i])
            } else {
                CommandV {
                    name: WordV { name: Seq::empty(), expansions: Seq::empty() },
                    prefixes: Seq::empty(),
                    suffixes: Seq::empty(),
                }
            },
    )
}

pub open spec fn command_v(c: Command) -> CommandV
    decreases c,
{
    CommandV {
        name: word_v(c.name),
        prefixes: metas_v(c.prefixes@),
        suffixes: metas_v(c.suffixes@),
    }
}

pub open spec fn metas_v(s: Seq<Meta>) -> Seq<MetaV>
    decreases s,
{
    Seq::new(
        s.len(),
        |i: int|
            if 0 <= i < s.len() {
                meta_v(s[i])
            } else {
                MetaV::Word(WordV { name: Seq::empty(), expansions: Seq::empty() })
            },
    )
}

pub open spec fn meta_v(m: Meta) -> MetaV
    decreases m,
{
    match m {
        Meta::Redirect(r) => MetaV::Redirect(redirect_v(r)),
        Meta::Word(w) => MetaV::Word(word_v(w)),
        Meta::Assignment(a, b) => MetaV::Assignment(word_v(a), word_v(b)),
    }
}

pub open spec fn redirect_v(r: Redirect) -> RedirectV
    decreases r,
{
    match r {
        Redirect::Output { from, to, append } => RedirectV::Output {
            from: match from {
                Some(f) => Some(word_v(f)),
                None => None,
            },
            to: word_v(to),
            append,
        },
        Redirect::Input { to } => RedirectV::Input { to: word_v(to) },
    }
}

pub open spec fn word_v(w: Word) -> WordV
    decreases w,
{
    WordV { name: w.name@, expansions: expansions_v(w.expansions@) }
}

pub open spec fn expansions_v(s: Seq<Expansion>) -> Seq<ExpansionV>
    decreases s,
{
    Seq::new(
        s.len(),
        |i: int|
            if 0 <= i < s.len() {
                expansion_v(s[i])
            } else {
                ExpansionV::Tilde { index: 0 }
            },
    )
}

pub open spec fn expansion_v(e: Expansion) -> ExpansionV
    decreases e,
{
    match e {
        Expansion::Parameter { range, name } => ExpansionV::Parameter {
            start: range@.start as nat,
            end: range@.end as nat,
            name: name@,
        },
        Expansion::Command { range, ast } => ExpansionV::Command {
            start: range@.start as nat,
            end: range@.end as nat,
            ast: tree_v(ast),
        },
        Expansion::Glob { range, pattern, recursive } => ExpansionV::Glob {
            start: range@.start as nat,
            end: range@.end as nat,
            pattern: pattern@,
            recursive,
        },
        Expansion::Tilde { index } => ExpansionV::Tilde { index: index as nat },
    }
}

impl View for SyntaxTree {
    type V = TreeV;

    open spec fn view(&self) -> TreeV {
        tree_v(*self)
    }
}

impl View for CommandType {
    type V = CommandTypeV;

    open spec fn view(&self) -> CommandTypeV {
        command_type_v(*self)
    }
}

impl View for Command {
    type V = CommandV;

    open spec fn view(&self) -> CommandV {
        command_v(*self)
    }
}

impl View for Word {
    type V = WordV;

    open spec fn view(&self) -> WordV {
        word_v(*self)
    }
}

impl View for Meta {
    type V = MetaV;

    open spec fn view(&self) -> MetaV {
        meta_v(*self)
    }
}

impl View for Redirect {
    type V = RedirectV;

    open spec fn view(&self) -> RedirectV {
        redirect_v(*self)
    }
}

impl View for Expansion {
    type V = ExpansionV;

    open spec fn view(&self) -> ExpansionV {
        expansion_v(*self)
    }
}

/// The first and last byte offset that an expansion covers.
pub open spec fn span(e: ExpansionV) -> (nat, nat) {
    match e {
        ExpansionV::Parameter { start, end, .. } => (start, end),
        ExpansionV::Command { start, end, .. } => (start, end),
        ExpansionV::Glob { start, end, .. } => (start, end),
        ExpansionV::Tilde { index } => (index, index),
    }
}

/// The characters that an expansion of the text `s` covers, first and last, found from its
/// byte offsets.
pub open spec fn char_span(s: Seq<char>, e: ExpansionV) -> (int, int) {
    (char_index(s, span(e).0) as int, char_index(s, span(e).1 + 1) as int - 1)
}

/// The expansions `es` of the text `s` cover whole characters among the first `bound`
/// ones, each starting after the previous one ends.
#[verifier::opaque]
pub open spec fn spans_ordered(s: Seq<char>, es: Seq<ExpansionV>, bound: nat) -> bool {
    &&& forall|k: int|
        0 <= k < es.len() ==> {
            let (x, y) = char_span(s, #[trigger] es[k]);
            &&& 0 <= x <= y < bound
            &&& byte_pos(s, x) == span(es[k]).0
            &&& byte_pos(s, y + 1) == span(es[k]).1 + 1
        }
    &&& forall|k: int|
        0 <= k < es.len() - 1 ==> char_span(s, #[trigger] es[k]).1 < char_span(s, es[k + 1]).0
}

/// No expansions are ordered within any bound.
pub proof fn lemma_no_spans(s: Seq<char>, es: Seq<ExpansionV>, bound: nat)
    requires
        es.len() == 0,
    ensures
        spans_ordered(s, es, bound),
{
    reveal(spans_ordered);
}

/// Expansions ordered within a bound are ordered within any larger one.
pub proof fn lemma_spans_grow(s: Seq<char>, es: Seq<ExpansionV>, i: nat, j: nat)
    requires
        spans_ordered(s, es, i),
        i <= j,
    ensures
        spans_ordered(s, es, j),
{
    reveal(spans_ordered);
}

/// The expansions of a word cover whole characters of its text, each one starting after
/// the previous one ends.
pub open spec fn word_wf(w: WordV) -> bool {
    spans_ordered(w.name, w.expansions, w.name.len())
}

/// A range that has not been iterated, so that its bounds can be read.
pub open spec fn live(e: Expansion) -> bool {
    match e {
        Expansion::Parameter { range, .. } => !range@.exhausted,
        Expansion::Command { range, .. } => !range@.exhausted,
        Expansion::Glob { range, .. } => !range@.exhausted,
        Expansion::Tilde { .. } => true,
    }
}

/// The words of a metadata item are well formed.
pub open spec fn meta_wf(m: Meta) -> bool {
    match m {
        Meta::Redirect(Redirect::Output { from, to, .. }) => {
            &&& from matches Some(f) ==> f.wf()
            &&& to.wf()
        },
        Meta::Redirect(Redirect::Input { to }) => to.wf(),
        Meta::Word(w) => w.wf(),
        Meta::Assignment(a, b) => a.wf() && b.wf(),
    }
}

impl Command {
    /// The words of the command are well formed.
    pub open spec fn wf(&self) -> bool {
        &&& self.name.wf()
        &&& forall|k: int| 0 <= k < self.prefixes@.len() ==> meta_wf(#[trigger] self.prefixes@[k])
        &&& forall|k: int| 0 <= k < self.suffixes@.len() ==> meta_wf(#[trigger] self.suffixes@[k])
    }
}

impl CommandType {
    /// The words of its commands are well formed.
    pub open spec fn wf(&self) -> bool {
        match self {
            CommandType::Single(c) => c.wf(),
            CommandType::Pipeline(cs) => forall|k: int| 0 <= k < cs@.len() ==> (#[trigger] cs@[k]).wf(),
        }
    }
}

impl SyntaxTree {
    /// The words of its commands are well formed. Those inside command substitutions are
    /// not resolved with the command, and are not asked for.
    pub open spec fn wf(&self) -> bool {
        forall|k: int| 0 <= k < self.commands@.len() ==> (#[trigger] self.commands@[k]).wf()
    }
}

impl Word {
    /// A word with the given text and expansions.
    pub fn new(name: &str, expansions: Vec<Expansion>) -> (r: Word)
        ensures
            r@ == (WordV { name: name@, expansions: expansions_v(expansions@) }),
    {
        Word { name: name.to_string(), expansions }
    }

    pub open spec fn wf(&self) -> bool {
        &&& word_wf(self@)
        &&& forall|k: int| 0 <= k < self.expansions@.len() ==> live(#[trigger] self.expansions@[k])
    }
}

impl SyntaxTree {
    /// A tree without commands.
    pub fn new() -> (r: SyntaxTree)
        ensures
            r@.commands.len() == 0,
    {
        let r = SyntaxTree { commands: Vec::new() };
        assert(command_types_v(r.commands@) =~= Seq::empty());
        r
    }

    /// Appends a command group.
    pub fn add_command(&mut self, command: CommandType)
        ensures
            final(self)@.commands == old(self)@.commands.push(command@),
    {
        let ghost before = command_types_v(self.commands@);
        self.commands.push(command);
        assert(command_types_v(self.commands@) =~= before.push(command@));
    }
}

impl Default for SyntaxTree {
    fn default() -> (r: SyntaxTree)
        ensures
            r@.commands.len() == 0,
    {
        SyntaxTree::new()
    }
}

/// Which standard stream a redirection replaces: 0 for input, 1 for output, 2 for errors,
/// and none for a duplication onto another descriptor.
pub open spec fn stream_of(r: RedirectV) -> Option<nat> {
    match r {
        RedirectV::Input { .. } => Some(0),
        RedirectV::Output { from: None, .. } => Some(1),
        RedirectV::Output { from: Some(f), .. } => {
            if f.name == seq!['1'] {
                Some(1)
            } else if f.name == seq!['2'] {
                Some(2)
            } else {
                None
            }
        },
    }
}

/// The last redirection among `ms` that replaces the stream `n`.
pub open spec fn last_redirect(ms: Seq<MetaV>, n: nat) -> Option<RedirectV>
    decreases ms.len(),
{
    if ms.len() == 0 {
        None
    } else {
        match ms.last() {
            MetaV::Redirect(r) if stream_of(r) == Some(n) => Some(r),
            _ => last_redirect(ms.drop_last(), n),
        }
    }
}

/// The texts of the plain words among `ms`, in order.
pub open spec fn words_of(ms: Seq<MetaV>) -> Seq<Seq<char>>
    decreases ms.len(),
{
    if ms.len() == 0 {
        Seq::empty()
    } else {
        match ms.last() {
            MetaV::Word(w) => words_of(ms.drop_last()).push(w.name),
            _ => words_of(ms.drop_last()),
        }
    }
}

pub open spec fn owned_redirect_v(r: Option<Redirect>) -> Option<RedirectV> {
    match r {
        Some(x) => Some(x@),
        None => None,
    }
}

/// A copy of the redirection `r`, if there is one.
fn copy_opt_redirect(r: Option<&Redirect>) -> (c: Option<Redirect>)
    ensures
        owned_redirect_v(c) == opt_redirect_v(r),
{
    match r {
        Some(x) => Some(crate::copy::copy_redirect(x)),
        None => None,
    }
}

pub open spec fn opt_redirect_v(r: Option<&Redirect>) -> Option<RedirectV> {
    match r {
        Some(x) => Some(x@),
        None => None,
    }
}

fn single_char_is(s: &String, c: char) -> (r: bool)
    ensures
        r == (s@ == seq![c]),
{
    let t = crate::text::chars_of(s.as_str());
    let r = t.len() == 1 && t[0] == c;
    proof {
        if t@ == seq![c] {
            assert(t@.len() == 1 && t@[0] == c);
        }
        if r {
            assert(t@ =~= seq![c]);
        }
    }
    r
}

/// Which standard stream the redirection replaces.
fn stream_of_redirect(r: &Redirect) -> (n: Option<usize>)
    ensures
        match n {
            Some(k) => stream_of(r@) == Some(k as nat),
            None => stream_of(r@) is None,
        },
{
    match r {
        Redirect::Input { .. } => Some(0),
        Redirect::Output { from: None, .. } => Some(1),
        Redirect::Output { from: Some(f), .. } => {
            if single_char_is(&f.name, '1') {
                Some(1)
            } else if single_char_is(&f.name, '2') {
                Some(2)
            } else {
                None
            }
        },
    }
}

impl Command {
    /// The text of the command name.
    pub fn cmd_name(&self) -> (r: &String)
        ensures
            r@ == self@.name.name,
    {
        &self.name.name
    }

    /// The texts of the plain words after the command name, in order.
    pub fn args(&self) -> (r: Vec<String>)
        ensures
            r@.map_values(|s: String| s@) == words_of(self@.suffixes),
    {
        let ghost sv = metas_v(self.suffixes@);
        let mut r: Vec<String> = Vec::new();
        let mut i: usize = 0;
        while i < self.suffixes.len()
            invariant
                i <= self.suffixes@.len(),
                sv == metas_v(self.suffixes@),
                r@.map_values(|s: String| s@) == words_of(sv.subrange(0, i as int)),
            decreases self.suffixes@.len() - i,
        {
            let ghost prev = r@.map_values(|s: String| s@);
            assert(sv.subrange(0, i + 1).drop_last() =~= sv.subrange(0, i as int));
            assert(sv[i as int] == self.suffixes@[i as int]@);
            match &self.suffixes[i] {
                Meta::Word(w) => {
                    let t = w.name.clone();
                    r.push(t);
                    assert(r@.map_values(|s: String| s@) =~= prev.push(t@));
                },
                _ => {},
            }
            i += 1;
        }
        assert(sv.subrange(0, i as int) =~= sv);
        r
    }

    /// The redirections of the standard input, output and error streams: for each, the last
    /// redirection of it among the prefixes and then the suffixes.
    pub fn redirections(&self) -> (r: (Option<Redirect>, Option<Redirect>, Option<Redirect>))
        ensures
            owned_redirect_v(r.0) == last_redirect(self@.prefixes + self@.suffixes, 0),
            owned_redirect_v(r.1) == last_redirect(self@.prefixes + self@.suffixes, 1),
            owned_redirect_v(r.2) == last_redirect(self@.prefixes + self@.suffixes, 2),
    {
        let ghost all = self@.prefixes + self@.suffixes;
        let ghost np = self.prefixes@.len();
        let mut stdin: Option<&Redirect> = None;
        let mut stdout: Option<&Redirect> = None;
        let mut stderr: Option<&Redirect> = None;
        let mut i: usize = 0;
        while i < self.prefixes.len()
            invariant
                i <= np,
                np == self.prefixes@.len(),
                all == self@.prefixes + self@.suffixes,
                opt_redirect_v(stdin) == last_redirect(all.subrange(0, i as int), 0),
                opt_redirect_v(stdout) == last_redirect(all.subrange(0, i as int), 1),
                opt_redirect_v(stderr) == last_redirect(all.subrange(0, i as int), 2),
            decreases np - i,
        {
            let m = &self.prefixes[i];
            assert(all[i as int] == m@);
            assert(all.subrange(0, i + 1).drop_last() =~= all.subrange(0, i as int));
            match m {
                Meta::Redirect(rd) => match stream_of_redirect(rd) {
                    Some(0) => {
                        stdin = Some(rd);
                    },
                    Some(1) => {
                        stdout = Some(rd);
                    },
                    Some(2) => {
                        stderr = Some(rd);
                    },
                    _ => {},
                },
                _ => {},
            }
            i += 1;
        }
        let mut j: usize = 0;
        while j < self.suffixes.len()
            invariant
                j <= self.suffixes@.len(),
                np == self.prefixes@.len(),
                all == self@.prefixes + self@.suffixes,
                opt_redirect_v(stdin) == last_redirect(all.subrange(0, np + j), 0),
                opt_redirect_v(stdout) == last_redirect(all.subrange(0, np + j), 1),
                opt_redirect_v(stderr) == last_redirect(all.subrange(0, np + j), 2),
            decreases self.suffixes@.len() - j,
        {
            let m = &self.suffixes[j];
            assert(all[np + j] == m@);
            assert(all.subrange(0, np + j + 1).drop_last() =~= all.subrange(0, np + j));
            match m {
                Meta::Redirect(rd) => match stream_of_redirect(rd) {
                    Some(0) => {
                        stdin = Some(rd);
                    },
                    Some(1) => {
                        stdout = Some(rd);
                    },
                    Some(2) => {
                        stderr = Some(rd);
                    },
                    _ => {},
                },
                _ => {},
            }
            j += 1;
        }
        assert(all.subrange(0, np + j) =~= all);
        (copy_opt_redirect(stdin), copy_opt_redirect(stdout), copy_opt_redirect(stderr))
    }
}

} // verus!
