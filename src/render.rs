//! The textual form of a syntax tree: pipeline stages joined by ` | `, command groups by
//! `; `, metadata by single spaces.

use vstd::prelude::*;

use crate::ast::{
    Command, CommandType, CommandTypeV, CommandV, Meta, MetaV, Redirect, RedirectV, SyntaxTree,
    TreeV, Word,
};
use crate::text::{push_char, trim_string, trimmed};

verus! {

/// The parts joined with `sep` between each two.
pub open spec fn join(parts: Seq<Seq<char>>, sep: Seq<char>) -> Seq<char>
    decreases parts.len(),
{
    if parts.len() == 0 {
        Seq::empty()
    } else if parts.len() == 1 {
        parts[0]
    } else {
        join(parts.drop_last(), sep) + sep + parts.last()
    }
}

pub open spec fn meta_text(m: MetaV) -> Seq<char> {
    match m {
        MetaV::Word(w) => w.name,
        MetaV::Redirect(RedirectV::Input { to }) => seq!['<'] + to.name,
        MetaV::Redirect(RedirectV::Output { from, to, append }) => {
            let arrow = if append {
                seq!['>', '>']
            } else {
                seq!['>']
            };
            match from {
                Some(f) => f.name + arrow + to.name,
                None => arrow + to.name,
            }
        },
        MetaV::Assignment(a, b) => a.name + seq!['='] + b.name,
    }
}

/// The texts of `ms`, each without leading and trailing whitespace.
pub open spec fn metas_texts(ms: Seq<MetaV>) -> Seq<Seq<char>> {
    ms.map_values(|m: MetaV| trimmed(meta_text(m)))
}

pub open spec fn metas_text(ms: Seq<MetaV>) -> Seq<char> {
    join(metas_texts(ms), seq![' '])
}

pub open spec fn command_text(c: CommandV) -> Seq<char> {
    let pre = metas_text(c.prefixes);
    let suf = metas_text(c.suffixes);
    (if pre.len() == 0 {
        Seq::empty()
    } else {
        pre + seq![' ']
    }) + c.name.name + (if suf.len() == 0 {
        Seq::empty()
    } else {
        seq![' ']
    }) + suf
}

pub open spec fn commands_texts(cs: Seq<CommandV>) -> Seq<Seq<char>> {
    cs.map_values(|c: CommandV| command_text(c))
}

pub open spec fn command_type_text(c: CommandTypeV) -> Seq<char> {
    match c {
        CommandTypeV::Single(cmd) => command_text(cmd),
        CommandTypeV::Pipeline(cmds) => join(commands_texts(cmds), seq![' ', '|', ' ']),
    }
}

pub open spec fn command_types_texts(cs: Seq<CommandTypeV>) -> Seq<Seq<char>> {
    cs.map_values(|c: CommandTypeV| command_type_text(c))
}

pub open spec fn tree_text(t: TreeV) -> Seq<char> {
    join(command_types_texts(t.commands), seq![';', ' '])
}

fn append_chars(s: &mut String, t: &String)
    ensures
        final(s)@ == old(s)@ + t@,
{
    s.append(t.as_str());
}

fn append_seps(s: &mut String, a: char, b: char, c: char, n: usize)
    requires
        1 <= n <= 3,
    ensures
        n == 1 ==> final(s)@ == old(s)@ + seq![a],
        n == 2 ==> final(s)@ == old(s)@ + seq![a, b],
        n == 3 ==> final(s)@ == old(s)@ + seq![a, b, c],
{
    push_char(s, a);
    if n >= 2 {
        push_char(s, b);
    }
    if n >= 3 {
        push_char(s, c);
    }
    assert(n == 1 ==> final(s)@ =~= old(s)@ + seq![a]);
    assert(n == 2 ==> final(s)@ =~= old(s)@ + seq![a, b]);
    assert(n == 3 ==> final(s)@ =~= old(s)@ + seq![a, b, c]);
}

pub open spec fn strings_v(v: Seq<String>) -> Seq<Seq<char>> {
    v.map_values(|s: String| s@)
}

/// The strings `parts` joined with the separator of `n` characters `a`, `b`, `c`.
fn join_strings(parts: &Vec<String>, a: char, b: char, c: char, n: usize) -> (r: String)
    requires
        1 <= n <= 3,
    ensures
        n == 1 ==> r@ == join(strings_v(parts@), seq![a]),
        n == 2 ==> r@ == join(strings_v(parts@), seq![a, b]),
        n == 3 ==> r@ == join(strings_v(parts@), seq![a, b, c]),
{
    let ghost sep = if n == 1 {
        seq![a]
    } else if n == 2 {
        seq![a, b]
    } else {
        seq![a, b, c]
    };
    let ghost pv = strings_v(parts@);
    let mut r = String::new();
    if parts.len() == 0 {
        assert(r@ =~= Seq::<char>::empty());
        return r;
    }
    append_chars(&mut r, &parts[0]);
    assert(pv.subrange(0, 1).len() == 1);
    assert(r@ =~= join(pv.subrange(0, 1), sep));
    let mut i: usize = 1;
    while i < parts.len()
        invariant
            1 <= i <= parts@.len(),
            1 <= n <= 3,
            pv == strings_v(parts@),
            sep == (if n == 1 {
                seq![a]
            } else if n == 2 {
                seq![a, b]
            } else {
                seq![a, b, c]
            }),
            r@ == join(pv.subrange(0, i as int), sep),
        decreases parts@.len() - i,
    {
        append_seps(&mut r, a, b, c, n);
        append_chars(&mut r, &parts[i]);
        i += 1;
        assert(pv.subrange(0, i as int).drop_last() =~= pv.subrange(0, i - 1));
    }
    assert(pv.subrange(0, i as int) =~= pv);
    r
}

impl Word {
    /// The text of the word.
    pub fn to_string(&self) -> (r: String)
        ensures
            r@ == self.name@,
    {
        self.name.clone()
    }
}

impl Meta {
    /// `word`, `<to`, `>to`, `>>to`, `from>to`, `from>>to` or `name=value`.
    pub fn to_string(&self) -> (r: String)
        ensures
            r@ == meta_text(self@),
    {
        let mut s = String::new();
        match self {
            Meta::Word(w) => {
                append_chars(&mut s, &w.name);
            },
            Meta::Redirect(Redirect::Input { to }) => {
                push_char(&mut s, '<');
                append_chars(&mut s, &to.name);
            },
            Meta::Redirect(Redirect::Output { from, to, append }) => {
                match from {
                    Some(f) => {
                        append_chars(&mut s, &f.name);
                    },
                    None => {},
                }
                push_char(&mut s, '>');
                if *append {
                    push_char(&mut s, '>');
                }
                append_chars(&mut s, &to.name);
            },
            Meta::Assignment(a, b) => {
                append_chars(&mut s, &a.name);
                push_char(&mut s, '=');
                append_chars(&mut s, &b.name);
            },
        }
        assert(s@ =~= meta_text(self@));
        s
    }
}

/// The metadata `ms` as text, each trimmed of surrounding whitespace, joined by single
/// spaces.
fn metas_to_string(ms: &Vec<Meta>) -> (r: String)
    ensures
        r@ == metas_text(crate::ast::metas_v(ms@)),
{
    let mut parts: Vec<String> = Vec::new();
    let mut i: usize = 0;
    while i < ms.len()
        invariant
            i <= ms@.len(),
            strings_v(parts@) == metas_texts(crate::ast::metas_v(ms@).subrange(0, i as int)),
        decreases ms@.len() - i,
    {
        let ghost mv = crate::ast::metas_v(ms@);
        let ghost prev = strings_v(parts@);
        let t = trim_string(&ms[i].to_string());
        assert(mv[i as int] == ms@[i as int]@);
        parts.push(t);
        assert(strings_v(parts@) =~= prev.push(t@));
        assert(metas_texts(mv.subrange(0, i + 1)) =~= metas_texts(mv.subrange(0, i as int)).push(
            trimmed(meta_text(mv[i as int])),
        ));
        i += 1;
        assert(strings_v(parts@) =~= metas_texts(crate::ast::metas_v(ms@).subrange(0, i as int)));
    }
    assert(crate::ast::metas_v(ms@).subrange(0, i as int) =~= crate::ast::metas_v(ms@));
    join_strings(&parts, ' ', ' ', ' ', 1)
}

impl Command {
    /// The prefixes, the name and the suffixes, separated by single spaces; each prefix and
    /// suffix is trimmed of surrounding whitespace.
    pub fn to_string(&self) -> (r: String)
        ensures
            r@ == command_text(self@),
    {
        let pre = metas_to_string(&self.prefixes);
        let suf = metas_to_string(&self.suffixes);
        let mut s = String::new();
        if pre.as_str().unicode_len() > 0 {
            append_chars(&mut s, &pre);
            push_char(&mut s, ' ');
        }
        append_chars(&mut s, &self.name.name);
        if suf.as_str().unicode_len() > 0 {
            push_char(&mut s, ' ');
        }
        append_chars(&mut s, &suf);
        assert(s@ =~= command_text(self@));
        s
    }
}

impl CommandType {
    /// A single command, or the commands of a pipeline joined by ` | `.
    pub fn to_string(&self) -> (r: String)
        ensures
            r@ == command_type_text(self@),
    {
        match self {
            CommandType::Single(c) => c.to_string(),
            CommandType::Pipeline(cs) => {
                let mut parts: Vec<String> = Vec::new();
                let mut i: usize = 0;
                while i < cs.len()
                    invariant
                        i <= cs@.len(),
                        strings_v(parts@) == commands_texts(crate::ast::commands_v(cs@).subrange(0, i as int)),
                    decreases cs@.len() - i,
                {
                    let ghost cv = crate::ast::commands_v(cs@);
                    let ghost prev = strings_v(parts@);
                    let t = cs[i].to_string();
                    assert(cv[i as int] == cs@[i as int]@);
                    parts.push(t);
                    assert(strings_v(parts@) =~= prev.push(t@));
                    assert(commands_texts(cv.subrange(0, i + 1)) =~= commands_texts(
                        cv.subrange(0, i as int),
                    ).push(command_text(cv[i as int])));
                    i += 1;
                    assert(strings_v(parts@) =~= commands_texts(crate::ast::commands_v(cs@).subrange(0, i as int)));
                }
                assert(crate::ast::commands_v(cs@).subrange(0, i as int)
                    =~= crate::ast::commands_v(cs@));
                join_strings(&parts, ' ', '|', ' ', 3)
            },
        }
    }
}

impl SyntaxTree {
    /// The command groups joined by `; `.
    pub fn to_string(&self) -> (r: String)
        ensures
            r@ == tree_text(self@),
    {
        let mut parts: Vec<String> = Vec::new();
        let mut i: usize = 0;
        while i < self.commands.len()
            invariant
                i <= self.commands@.len(),
                strings_v(parts@) == command_types_texts(crate::ast::command_types_v(self.commands@).subrange(0, i as int)),
            decreases self.commands@.len() - i,
        {
            let ghost cv = crate::ast::command_types_v(self.commands@);
            let ghost prev = strings_v(parts@);
            let t = self.commands[i].to_string();
            assert(cv[i as int] == self.commands@[i as int]@);
            parts.push(t);
            assert(strings_v(parts@) =~= prev.push(t@));
            assert(command_types_texts(cv.subrange(0, i + 1)) =~= command_types_texts(
                cv.subrange(0, i as int),
            ).push(command_type_text(cv[i as int])));
            i += 1;
            assert(strings_v(parts@) =~= command_types_texts(crate::ast::command_types_v(self.commands@).subrange(0, i as int)));
        }
        assert(crate::ast::command_types_v(self.commands@).subrange(0, i as int)
            =~= crate::ast::command_types_v(self.commands@));
        join_strings(&parts, ';', ' ', ' ', 2)
    }
}

} // verus!
