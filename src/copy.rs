//! Copies of syntax trees, behind the `Clone` impls of its types.

use core::ops::RangeInclusive;
use vstd::prelude::*;

use crate::ast::{
    command_types_v, commands_v, expansions_v, metas_v, Command, CommandType, Expansion, Meta,
    Redirect, SyntaxTree, Word,
};

verus! {

broadcast use vstd::std_specs::vec::axiom_vec_index_decreases;

/// Relies on the derived `Clone` impl of `RangeInclusive`, which clones the start and the
/// end and copies whether the range was iterated to its end.
pub assume_specification<Idx: Clone>[ <RangeInclusive<Idx> as Clone>::clone ](
    r: &RangeInclusive<Idx>,
) -> (c: RangeInclusive<Idx>)
    ensures
        cloned(r@.start, c@.start),
        cloned(r@.end, c@.end),
        c@.exhausted == r@.exhausted,
;

fn copy_tree(t: &SyntaxTree) -> (r: SyntaxTree)
    ensures
        r@ == t@,
    decreases *t, 0usize,
{
    let mut commands: Vec<CommandType> = Vec::new();
    let mut i: usize = 0;
    while i < t.commands.len()
        invariant
            i <= t.commands@.len(),
            command_types_v(commands@) == command_types_v(t.commands@).subrange(0, i as int),
        decreases t.commands@.len() - i,
    {
        let ghost before = command_types_v(commands@);
        proof {
            assert(decreases_to!(*t => t.commands));
            assert(decreases_to!(t.commands => t.commands[i as int]));
        }
        let c = copy_command_type(&t.commands[i]);
        commands.push(c);
        assert(command_types_v(commands@) =~= before.push(c@));
        i += 1;
        assert(command_types_v(commands@) =~= command_types_v(t.commands@).subrange(0, i as int));
    }
    assert(command_types_v(t.commands@).subrange(0, i as int) =~= command_types_v(t.commands@));
    SyntaxTree { commands }
}

fn copy_command_type(c: &CommandType) -> (r: CommandType)
    ensures
        r@ == c@,
    decreases *c, 0usize,
{
    match c {
        CommandType::Single(cmd) => CommandType::Single(copy_command(cmd)),
        CommandType::Pipeline(cmds) => CommandType::Pipeline(copy_commands(cmds)),
    }
}

fn copy_commands(cs: &Vec<Command>) -> (r: Vec<Command>)
    ensures
        commands_v(r@) == commands_v(cs@),
    decreases *cs, 1usize,
{
    let mut out: Vec<Command> = Vec::new();
    let mut i: usize = 0;
    while i < cs.len()
        invariant
            i <= cs@.len(),
            commands_v(out@) == commands_v(cs@).subrange(0, i as int),
        decreases cs@.len() - i,
    {
        let ghost before = commands_v(out@);
        proof {
            assert(decreases_to!(*cs => cs[i as int]));
        }
        let c = copy_command(&cs[i]);
        out.push(c);
        assert(commands_v(out@) =~= before.push(c@));
        i += 1;
        assert(commands_v(out@) =~= commands_v(cs@).subrange(0, i as int));
    }
    assert(commands_v(cs@).subrange(0, i as int) =~= commands_v(cs@));
    out
}

fn copy_metas(ms: &Vec<Meta>) -> (r: Vec<Meta>)
    ensures
        metas_v(r@) == metas_v(ms@),
    decreases *ms, 1usize,
{
    let mut out: Vec<Meta> = Vec::new();
    let mut i: usize = 0;
    while i < ms.len()
        invariant
            i <= ms@.len(),
            metas_v(out@) == metas_v(ms@).subrange(0, i as int),
        decreases ms@.len() - i,
    {
        let ghost before = metas_v(out@);
        proof {
            assert(decreases_to!(*ms => ms[i as int]));
        }
        let m = copy_meta(&ms[i]);
        out.push(m);
        assert(metas_v(out@) =~= before.push(m@));
        i += 1;
        assert(metas_v(out@) =~= metas_v(ms@).subrange(0, i as int));
    }
    assert(metas_v(ms@).subrange(0, i as int) =~= metas_v(ms@));
    out
}

fn copy_command(c: &Command) -> (r: Command)
    ensures
        r@ == c@,
    decreases *c, 2usize,
{
    Command {
        name: copy_word(&c.name),
        prefixes: copy_metas(&c.prefixes),
        suffixes: copy_metas(&c.suffixes),
    }
}

fn copy_meta(m: &Meta) -> (r: Meta)
    ensures
        r@ == m@,
    decreases *m, 0usize,
{
    match m {
        Meta::Redirect(r) => Meta::Redirect(copy_redirect(r)),
        Meta::Word(w) => Meta::Word(copy_word(w)),
        Meta::Assignment(a, b) => Meta::Assignment(copy_word(a), copy_word(b)),
    }
}

pub(crate) fn copy_redirect(r: &Redirect) -> (out: Redirect)
    ensures
        out@ == r@,
    decreases *r, 0usize,
{
    match r {
        Redirect::Output { from, to, append } => Redirect::Output {
            from: match from {
                Some(f) => Some(copy_word(f)),
                None => None,
            },
            to: copy_word(to),
            append: *append,
        },
        Redirect::Input { to } => Redirect::Input { to: copy_word(to) },
    }
}

fn copy_word(w: &Word) -> (r: Word)
    ensures
        r@ == w@,
    decreases *w, 0usize,
{
    let mut expansions: Vec<Expansion> = Vec::new();
    let mut i: usize = 0;
    while i < w.expansions.len()
        invariant
            i <= w.expansions@.len(),
            expansions_v(expansions@) == expansions_v(w.expansions@).subrange(0, i as int),
        decreases w.expansions@.len() - i,
    {
        let ghost before = expansions_v(expansions@);
        proof {
            assert(decreases_to!(*w => w.expansions));
            assert(decreases_to!(w.expansions => w.expansions[i as int]));
        }
        let e = copy_expansion(&w.expansions[i]);
        expansions.push(e);
        assert(expansions_v(expansions@) =~= before.push(e@));
        i += 1;
        assert(expansions_v(expansions@) =~= expansions_v(w.expansions@).subrange(0, i as int));
    }
    assert(expansions_v(w.expansions@).subrange(0, i as int) =~= expansions_v(w.expansions@));
    Word { name: w.name.clone(), expansions }
}

fn copy_expansion(e: &Expansion) -> (r: Expansion)
    ensures
        r@ == e@,
    decreases *e, 0usize,
{
    match e {
        Expansion::Parameter { range, name } => Expansion::Parameter {
            range: range.clone(),
            name: name.clone(),
        },
        Expansion::Command { range, ast } => Expansion::Command {
            range: range.clone(),
            ast: copy_tree(ast),
        },
        Expansion::Glob { range, pattern, recursive } => Expansion::Glob {
            range: range.clone(),
            pattern: pattern.clone(),
            recursive: *recursive,
        },
        Expansion::Tilde { index } => Expansion::Tilde { index: *index },
    }
}

impl Clone for SyntaxTree {
    fn clone(&self) -> (r: Self)
        ensures
            r@ == self@,
    {
        copy_tree(self)
    }
}

impl Clone for CommandType {
    fn clone(&self) -> (r: Self)
        ensures
            r@ == self@,
    {
        copy_command_type(self)
    }
}

impl Clone for Command {
    fn clone(&self) -> (r: Self)
        ensures
            r@ == self@,
    {
        copy_command(self)
    }
}

impl Clone for Word {
    fn clone(&self) -> (r: Self)
        ensures
            r@ == self@,
    {
        copy_word(self)
    }
}

impl Clone for Meta {
    fn clone(&self) -> (r: Self)
        ensures
            r@ == self@,
    {
        copy_meta(self)
    }
}

impl Clone for Redirect {
    fn clone(&self) -> (r: Self)
        ensures
            r@ == self@,
    {
        copy_redirect(self)
    }
}

impl Clone for Expansion {
    fn clone(&self) -> (r: Self)
        ensures
            r@ == self@,
    {
        copy_expansion(self)
    }
}

} // verus!
