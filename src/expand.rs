//! The expansion resolver: rewrites the text of words with the values of their expansions,
//! against a set of variable bindings and a home directory.

use core::ops::RangeInclusive;
use vstd::prelude::*;

use crate::ast::{
    char_span, commands_v, expansions_v, live, meta_wf, metas_v, span, spans_ordered, word_wf, Command, CommandType,
    CommandTypeV, CommandV, Expansion, ExpansionV, Meta, MetaV, Redirect, RedirectV, Word, WordV,
};
use crate::error::{Error, ExpansionKind};
use crate::parser::{command_result_v, meta_result_v, word_result_v};
use crate::text::{
    byte_len, byte_pos, char_index_of, chars_of, concat_chars, lemma_byte_pos_mono, string_from,
};

verus! {

/// A set of bindings: name and value pairs, in order.
pub type Bindings = Vec<(String, String)>;

pub open spec fn bindings_v(b: Seq<(String, String)>) -> Seq<(Seq<char>, Seq<char>)> {
    b.map_values(|p: (String, String)| (p.0@, p.1@))
}

/// The value bound to `name`; the last binding of a name wins.
pub open spec fn lookup(vars: Seq<(Seq<char>, Seq<char>)>, name: Seq<char>) -> Option<Seq<char>>
    decreases vars.len(),
{
    if vars.len() == 0 {
        None
    } else if vars.last().0 == name {
        Some(vars.last().1)
    } else {
        lookup(vars.drop_last(), name)
    }
}

/// `text` with the characters `a..=b` replaced by `v`.
pub open spec fn splice(text: Seq<char>, a: int, b: int, v: Seq<char>) -> Seq<char> {
    text.subrange(0, a) + v + text.subrange(b + 1, text.len() as int)
}

/// The text after the expansion `e`, which covers the characters `cs` of the word, is
/// applied to it, when it can be.
pub open spec fn apply(
    text: Seq<char>,
    e: ExpansionV,
    cs: (int, int),
    vars: Seq<(Seq<char>, Seq<char>)>,
    home: Seq<char>,
) -> Seq<char> {
    match e {
        ExpansionV::Tilde { .. } => splice(text, cs.0, cs.1, home),
        ExpansionV::Parameter { name, .. } => match lookup(vars, name) {
            Some(v) => splice(text, cs.0, cs.1, v),
            None => text,
        },
        _ => text,
    }
}

/// The text that expansion `k` is applied to: the word's own text after the expansions to
/// its right have been applied, from the last one on. The byte offsets of each expansion
/// are taken as characters of the word's own text.
pub open spec fn text_before(
    exps: Seq<ExpansionV>,
    unexpanded: Seq<char>,
    vars: Seq<(Seq<char>, Seq<char>)>,
    home: Seq<char>,
    k: int,
) -> Seq<char>
    decreases exps.len() - k,
{
    if k + 1 >= exps.len() {
        unexpanded
    } else {
        apply(
            text_before(exps, unexpanded, vars, home, k + 1),
            exps[k + 1],
            char_span(unexpanded, exps[k + 1]),
            vars,
            home,
        )
    }
}

/// The word that is left once expansions `0..=k` of a word with text `unexpanded` are
/// resolved, from `k` down: `text` is the current text, `kept` the expansions to the right
/// of `k` that stay unresolved.
pub open spec fn resolve_from(
    exps: Seq<ExpansionV>,
    unexpanded: Seq<char>,
    k: int,
    text: Seq<char>,
    kept: Seq<ExpansionV>,
    vars: Seq<(Seq<char>, Seq<char>)>,
    home: Seq<char>,
) -> Result<WordV, Error>
    decreases k + 1,
{
    if k < 0 {
        Ok(WordV { name: text, expansions: kept })
    } else {
        let next = apply(text, exps[k], char_span(unexpanded, exps[k]), vars, home);
        match exps[k] {
            ExpansionV::Command { .. } => Err(Error::Unresolved(ExpansionKind::Command)),
            ExpansionV::Glob { .. } => Err(Error::Unresolved(ExpansionKind::Glob)),
            ExpansionV::Parameter { name, .. } => {
                if lookup(vars, name) is Some {
                    resolve_from(exps, unexpanded, k - 1, next, kept, vars, home)
                } else {
                    resolve_from(exps, unexpanded, k - 1, text, seq![exps[k]] + kept, vars, home)
                }
            },
            ExpansionV::Tilde { .. } => resolve_from(exps, unexpanded, k - 1, next, kept, vars, home),
        }
    }
}

/// The word `w` resolved against `vars`: from the last expansion to the first, a tilde
/// becomes `home`, a bound parameter its value; an unbound parameter stays as it is, and a
/// command substitution or a glob cannot be resolved here.
pub open spec fn expand_word_spec(
    w: WordV,
    vars: Seq<(Seq<char>, Seq<char>)>,
    home: Seq<char>,
) -> Result<WordV, Error> {
    resolve_from(w.expansions, w.name, w.expansions.len() - 1, w.name, Seq::empty(), vars, home)
}

/// Where the text that expansion `k` is applied to must still agree with the word's own text.
pub open spec fn fixed_prefix(exps: Seq<ExpansionV>, unexpanded: Seq<char>, k: int) -> int {
    if k + 1 >= exps.len() {
        unexpanded.len() as int
    } else {
        char_span(unexpanded, exps[k + 1]).0
    }
}

/// What well-formedness says of expansion `k` of a word: the characters that it covers,
/// and that they come before those of the next expansion.
pub proof fn lemma_span_facts(w: WordV, k: int)
    requires
        word_wf(w),
        0 <= k < w.expansions.len(),
    ensures
        ({
            let (x, y) = char_span(w.name, w.expansions[k]);
            &&& 0 <= x <= y < w.name.len()
            &&& byte_pos(w.name, x) == span(w.expansions[k]).0
            &&& byte_pos(w.name, y + 1) == span(w.expansions[k]).1 + 1
            &&& k + 1 < w.expansions.len() ==> y < char_span(w.name, w.expansions[k + 1]).0
        }),
{
    reveal(spans_ordered);
    assert(w.expansions[k] == w.expansions[k]);
}

proof fn lemma_text_before_prefix(
    w: WordV,
    vars: Seq<(Seq<char>, Seq<char>)>,
    home: Seq<char>,
    k: int,
)
    requires
        word_wf(w),
        -1 <= k < w.expansions.len(),
    ensures
        ({
            let t = text_before(w.expansions, w.name, vars, home, k);
            let p = fixed_prefix(w.expansions, w.name, k);
            &&& 0 <= p <= t.len()
            &&& p <= w.name.len()
            &&& t.subrange(0, p) == w.name.subrange(0, p)
        }),
    decreases w.expansions.len() - k,
{
    let exps = w.expansions;
    if k + 1 < exps.len() {
        lemma_text_before_prefix(w, vars, home, k + 1);
        lemma_span_facts(w, k + 1);
        let t1 = text_before(exps, w.name, vars, home, k + 1);
        let p_next = fixed_prefix(exps, w.name, k + 1);
        let (a, b) = char_span(w.name, exps[k + 1]);
        assert(b < p_next);
        let t = text_before(exps, w.name, vars, home, k);
        assert(t.subrange(0, a) =~= t1.subrange(0, a));
        assert(t1.subrange(0, a) =~= t1.subrange(0, p_next).subrange(0, a));
        assert(w.name.subrange(0, a) =~= w.name.subrange(0, p_next).subrange(0, a));
    }
}

/// Resolving the expansions of a well-formed word from the last to the first, each one is
/// applied to a text that still holds all the characters that its byte range covers,
/// unchanged from the word's own text.
pub proof fn lemma_reverse_order_keeps_ranges(
    w: WordV,
    vars: Seq<(Seq<char>, Seq<char>)>,
    home: Seq<char>,
    k: int,
)
    requires
        word_wf(w),
        0 <= k < w.expansions.len(),
    ensures
        ({
            let t = text_before(w.expansions, w.name, vars, home, k);
            let (a, b) = char_span(w.name, w.expansions[k]);
            &&& 0 <= a <= b < t.len()
            &&& t.subrange(0, b + 1) == w.name.subrange(0, b + 1)
        }),
{
    lemma_text_before_prefix(w, vars, home, k);
    lemma_span_facts(w, k);
    let exps = w.expansions;
    let t = text_before(exps, w.name, vars, home, k);
    let p = fixed_prefix(exps, w.name, k);
    let (a, b) = char_span(w.name, exps[k]);
    assert(b < p);
    assert(t.subrange(0, b + 1) =~= t.subrange(0, p).subrange(0, b + 1));
    assert(w.name.subrange(0, b + 1) =~= w.name.subrange(0, p).subrange(0, b + 1));
}

/// What expansion `e`, which covers `orig` in the word's own text, is replaced with: the
/// home directory for a tilde, the value of a bound parameter, and otherwise `orig` itself.
pub open spec fn replacement(
    e: ExpansionV,
    vars: Seq<(Seq<char>, Seq<char>)>,
    home: Seq<char>,
    orig: Seq<char>,
) -> Seq<char> {
    match e {
        ExpansionV::Tilde { .. } => home,
        ExpansionV::Parameter { name, .. } => match lookup(vars, name) {
            Some(v) => v,
            None => orig,
        },
        _ => orig,
    }
}

/// The word's own text from character `start` on, with expansions `k..` all replaced at
/// once, each at the characters its byte range covers in that text.
pub open spec fn substituted_from(
    w: WordV,
    vars: Seq<(Seq<char>, Seq<char>)>,
    home: Seq<char>,
    k: int,
    start: int,
) -> Seq<char>
    decreases w.expansions.len() - k,
{
    if k < 0 || k >= w.expansions.len() {
        w.name.subrange(start, w.name.len() as int)
    } else {
        let (x, y) = char_span(w.name, w.expansions[k]);
        w.name.subrange(start, x) + replacement(
            w.expansions[k],
            vars,
            home,
            w.name.subrange(x, y + 1),
        ) + substituted_from(w, vars, home, k + 1, y + 1)
    }
}

proof fn lemma_substituted_split(
    w: WordV,
    vars: Seq<(Seq<char>, Seq<char>)>,
    home: Seq<char>,
    k: int,
    start: int,
    mid: int,
)
    requires
        word_wf(w),
        0 <= k,
        0 <= start <= mid,
        k < w.expansions.len() ==> mid <= char_span(w.name, w.expansions[k]).0,
        k >= w.expansions.len() ==> mid <= w.name.len(),
    ensures
        substituted_from(w, vars, home, k, start) == w.name.subrange(start, mid)
            + substituted_from(w, vars, home, k, mid),
{
    if k < w.expansions.len() {
        lemma_span_facts(w, k);
        let (x, y) = char_span(w.name, w.expansions[k]);
        assert(w.name.subrange(start, x) =~= w.name.subrange(start, mid) + w.name.subrange(mid, x));
    } else {
        assert(w.name.subrange(start, w.name.len() as int) =~= w.name.subrange(start, mid)
            + w.name.subrange(mid, w.name.len() as int));
    }
}

proof fn lemma_text_before_closed(
    w: WordV,
    vars: Seq<(Seq<char>, Seq<char>)>,
    home: Seq<char>,
    k: int,
)
    requires
        word_wf(w),
        -1 <= k < w.expansions.len(),
    ensures
        text_before(w.expansions, w.name, vars, home, k) == w.name.subrange(
            0,
            fixed_prefix(w.expansions, w.name, k),
        ) + substituted_from(w, vars, home, k + 1, fixed_prefix(w.expansions, w.name, k)),
    decreases w.expansions.len() - k,
{
    let exps = w.expansions;
    let n = w.name;
    if k + 1 >= exps.len() {
        assert(n.subrange(0, n.len() as int) =~= n);
        assert(n.subrange(n.len() as int, n.len() as int) =~= Seq::<char>::empty());
        assert(n + Seq::<char>::empty() =~= n);
    } else {
        lemma_text_before_closed(w, vars, home, k + 1);
        lemma_span_facts(w, k + 1);
        let p_after = fixed_prefix(exps, n, k + 1);
        let (x, y) = char_span(n, exps[k + 1]);
        let t1 = text_before(exps, n, vars, home, k + 1);
        let rest = substituted_from(w, vars, home, k + 2, p_after);
        assert(y < p_after <= n.len()) by {
            if k + 2 < exps.len() {
                lemma_span_facts(w, k + 2);
            }
        }
        lemma_substituted_split(w, vars, home, k + 2, y + 1, p_after);
        let orig = n.subrange(x, y + 1);
        let r = replacement(exps[k + 1], vars, home, orig);
        assert(n.subrange(x, x) =~= Seq::<char>::empty());
        let goal = n.subrange(0, x) + substituted_from(w, vars, home, k + 1, x);
        assert(goal =~= n.subrange(0, x) + r + n.subrange(y + 1, p_after) + rest);
        assert(t1 =~= n.subrange(0, x) + orig + n.subrange(y + 1, p_after) + rest);
        let t = text_before(exps, n, vars, home, k);
        assert(t1.subrange(0, x) =~= n.subrange(0, x));
        assert(t1.subrange(y + 1, t1.len() as int) =~= n.subrange(y + 1, p_after) + rest);
        match exps[k + 1] {
            ExpansionV::Tilde { .. } => {
                assert(t =~= goal);
            },
            ExpansionV::Parameter { name, .. } => {
                if lookup(vars, name) is Some {
                    assert(t =~= goal);
                } else {
                    assert(t =~= goal);
                }
            },
            _ => {
                assert(t =~= goal);
            },
        }
    }
}

proof fn lemma_resolve_text(
    w: WordV,
    vars: Seq<(Seq<char>, Seq<char>)>,
    home: Seq<char>,
    k: int,
    kept: Seq<ExpansionV>,
)
    requires
        -1 <= k < w.expansions.len(),
    ensures
        resolve_from(
            w.expansions,
            w.name,
            k,
            text_before(w.expansions, w.name, vars, home, k),
            kept,
            vars,
            home,
        ) matches Ok(r) ==> r.name == text_before(w.expansions, w.name, vars, home, -1),
    decreases k + 1,
{
    if k >= 0 {
        let exps = w.expansions;
        let t = text_before(exps, w.name, vars, home, k);
        assert(text_before(exps, w.name, vars, home, k - 1) == apply(
            t,
            exps[k],
            char_span(w.name, exps[k]),
            vars,
            home,
        ));
        match exps[k] {
            ExpansionV::Parameter { name, .. } => {
                lemma_resolve_text(w, vars, home, k - 1, seq![exps[k]] + kept);
                lemma_resolve_text(w, vars, home, k - 1, kept);
            },
            ExpansionV::Tilde { .. } => {
                lemma_resolve_text(w, vars, home, k - 1, kept);
            },
            _ => {},
        }
    }
}

/// Resolving a well-formed word from its last expansion to its first gives the same text as
/// replacing all of its expansions at once, each at the range it has in the word's own text.
pub proof fn lemma_resolution_is_simultaneous(
    w: WordV,
    vars: Seq<(Seq<char>, Seq<char>)>,
    home: Seq<char>,
)
    requires
        word_wf(w),
    ensures
        expand_word_spec(w, vars, home) matches Ok(r) ==> r.name == substituted_from(
            w,
            vars,
            home,
            0,
            0,
        ),
{
    let n = w.expansions.len();
    lemma_resolve_text(w, vars, home, n - 1, Seq::empty());
    lemma_text_before_closed(w, vars, home, -1);
    let p = fixed_prefix(w.expansions, w.name, -1);
    if n > 0 {
        lemma_span_facts(w, 0);
    }
    lemma_substituted_split(w, vars, home, 0, 0, p);
    assert(w.name.subrange(0, p) + substituted_from(w, vars, home, 0, p) == substituted_from(
        w,
        vars,
        home,
        0,
        0,
    ));
}

/// The index of the binding of `name` that [`lookup`] finds.
fn find_binding(vars: &Bindings, name: &String) -> (r: Option<usize>)
    ensures
        match r {
            Some(j) => j < vars@.len() && lookup(bindings_v(vars@), name@) == Some(
                bindings_v(vars@)[j as int].1,
            ),
            None => lookup(bindings_v(vars@), name@) is None,
        },
{
    let ghost vv = bindings_v(vars@);
    let mut i = vars.len();
    assert(vv.subrange(0, i as int) =~= vv);
    while i > 0
        invariant
            i <= vars@.len(),
            vv == bindings_v(vars@),
            lookup(vv, name@) == lookup(vv.subrange(0, i as int), name@),
        decreases i,
    {
        let ghost sub = vv.subrange(0, i as int);
        if vars[i - 1].0 == *name {
            assert(sub.last().0 == name@);
            return Some(i - 1);
        }
        assert(sub.drop_last() =~= vv.subrange(0, i - 1));
        i -= 1;
    }
    assert(vv.subrange(0, 0) =~= Seq::<(Seq<char>, Seq<char>)>::empty());
    None
}

/// `text` with the characters `a..=b` replaced by `v`.
fn splice_chars(text: &Vec<char>, a: usize, b: usize, v: &Vec<char>) -> (r: Vec<char>)
    requires
        a <= b < text@.len(),
    ensures
        r@ == splice(text@, a as int, b as int, v@),
{
    let n = text.len();
    let mut r: Vec<char> = Vec::new();
    concat_chars(&mut r, text, 0, a);
    concat_chars(&mut r, v, 0, v.len());
    concat_chars(&mut r, text, b + 1, n);
    assert(v@.subrange(0, v@.len() as int) =~= v@);
    assert(r@ =~= splice(text@, a as int, b as int, v@));
    r
}

/// Resolves the expansions of `word` against `vars`, a tilde to `home`.
pub fn expand_word(vars: &Bindings, word: &Word, home: &str) -> (r: Result<Word, Error>)
    requires
        word.wf(),
    ensures
        word_result_v(r) == expand_word_spec(word@, bindings_v(vars@), home@),
{
    let ghost vv = bindings_v(vars@);
    let ghost w = word@;
    let ghost exps = w.expansions;
    let home_chars = chars_of(home);
    let name = chars_of(word.name.as_str());
    let mut text = chars_of(word.name.as_str());
    let mut kept: Vec<Expansion> = Vec::new();
    let mut k = word.expansions.len();
    assert(expansions_v(kept@) =~= Seq::empty());
    while k > 0
        invariant
            k <= word.expansions@.len(),
            word.wf(),
            w == word@,
            exps == w.expansions,
            name@ == w.name,
            byte_len(name@) <= usize::MAX,
            vv == bindings_v(vars@),
            home_chars@ == home@,
            text@ == text_before(exps, w.name, vv, home@, k - 1),
            resolve_from(exps, w.name, k - 1, text@, expansions_v(kept@), vv, home@)
                == expand_word_spec(w, vv, home@),
        decreases k,
    {
        let i = k - 1;
        proof {
            lemma_reverse_order_keeps_ranges(w, vv, home@, i as int);
            lemma_span_facts(w, i as int);
            assert(exps[i as int] == word.expansions@[i as int]@);
        }
        let ghost kept_v = expansions_v(kept@);
        let ghost cs = char_span(w.name, exps[i as int]);
        match &word.expansions[i] {
            Expansion::Tilde { index } => {
                proof {
                    lemma_byte_pos_mono(name@, cs.1 + 1, name@.len() as int);
                }
                let x = char_index_of(&name, *index);
                let y = char_index_of(&name, *index + 1) - 1;
                text = splice_chars(&text, x, y, &home_chars);
            },
            Expansion::Parameter { range, name: pname } => {
                assert(live(word.expansions@[i as int]));
                let a = *range.start();
                let b = *range.end();
                match find_binding(vars, pname) {
                    Some(j) => {
                        proof {
                            lemma_byte_pos_mono(name@, cs.1 + 1, name@.len() as int);
                        }
                        let x = char_index_of(&name, a);
                        let y = char_index_of(&name, b + 1) - 1;
                        let value = chars_of(vars[j].1.as_str());
                        text = splice_chars(&text, x, y, &value);
                    },
                    None => {
                        let e = Expansion::Parameter {
                            range: RangeInclusive::new(a, b),
                            name: pname.clone(),
                        };
                        kept.insert(0, e);
                        assert(expansions_v(kept@) =~= seq![e@] + kept_v);
                    },
                }
            },
            Expansion::Command { .. } => {
                return Err(Error::Unresolved(ExpansionKind::Command));
            },
            Expansion::Glob { .. } => {
                return Err(Error::Unresolved(ExpansionKind::Glob));
            },
        }
        k = i;
    }
    Ok(Word { name: string_from(&text), expansions: kept })
}

/// The metadata `m` with its words resolved, left to right.
pub open spec fn expand_meta_spec(
    m: MetaV,
    vars: Seq<(Seq<char>, Seq<char>)>,
    home: Seq<char>,
) -> Result<MetaV, Error> {
    match m {
        MetaV::Redirect(RedirectV::Output { from, to, append }) => match from {
            Some(f) => match expand_word_spec(f, vars, home) {
                Err(e) => Err(e),
                Ok(f2) => match expand_word_spec(to, vars, home) {
                    Ok(t2) => Ok(MetaV::Redirect(RedirectV::Output { from: Some(f2), to: t2, append })),
                    Err(e) => Err(e),
                },
            },
            None => match expand_word_spec(to, vars, home) {
                Ok(t2) => Ok(MetaV::Redirect(RedirectV::Output { from: None, to: t2, append })),
                Err(e) => Err(e),
            },
        },
        MetaV::Redirect(RedirectV::Input { to }) => match expand_word_spec(to, vars, home) {
            Ok(t2) => Ok(MetaV::Redirect(RedirectV::Input { to: t2 })),
            Err(e) => Err(e),
        },
        MetaV::Word(w) => match expand_word_spec(w, vars, home) {
            Ok(w2) => Ok(MetaV::Word(w2)),
            Err(e) => Err(e),
        },
        MetaV::Assignment(a, b) => match expand_word_spec(a, vars, home) {
            Err(e) => Err(e),
            Ok(a2) => match expand_word_spec(b, vars, home) {
                Ok(b2) => Ok(MetaV::Assignment(a2, b2)),
                Err(e) => Err(e),
            },
        },
    }
}

/// The first index at or after `i` of a binding of `name`, or the number of bindings.
pub open spec fn first_binding(vars: Seq<(Seq<char>, Seq<char>)>, name: Seq<char>, i: nat) -> nat
    decreases vars.len() - i,
{
    if i < vars.len() && vars[i as int].0 != name {
        first_binding(vars, name, i + 1)
    } else {
        i
    }
}

/// `vars` with `name` bound to `value`: a binding of `name` is taken out and the new one
/// added last.
pub open spec fn upsert(
    vars: Seq<(Seq<char>, Seq<char>)>,
    name: Seq<char>,
    value: Seq<char>,
) -> Seq<(Seq<char>, Seq<char>)> {
    let k = first_binding(vars, name, 0);
    let rest = if k < vars.len() {
        vars.remove(k as int)
    } else {
        vars
    };
    rest.push((name, value))
}

/// The bindings after the assignments among `prefixes[i..]` are applied to `vars`, each
/// value resolved against the bindings before it. An assignment that cannot be resolved is
/// left out.
pub open spec fn bindings_from(
    prefixes: Seq<MetaV>,
    i: nat,
    vars: Seq<(Seq<char>, Seq<char>)>,
    home: Seq<char>,
) -> Seq<(Seq<char>, Seq<char>)>
    decreases prefixes.len() - i,
{
    if i >= prefixes.len() {
        vars
    } else {
        match prefixes[i as int] {
            MetaV::Assignment(a, b) => match expand_word_spec(a, vars, home) {
                Ok(a2) => match expand_word_spec(b, vars, home) {
                    Ok(b2) => bindings_from(prefixes, i + 1, upsert(vars, a2.name, b2.name), home),
                    Err(_) => bindings_from(prefixes, i + 1, vars, home),
                },
                Err(_) => bindings_from(prefixes, i + 1, vars, home),
            },
            _ => bindings_from(prefixes, i + 1, vars, home),
        }
    }
}

/// The bindings of a command: the environment `env`, then its own assignments.
pub open spec fn vars_spec(
    c: CommandV,
    env: Seq<(Seq<char>, Seq<char>)>,
    home: Seq<char>,
) -> Seq<(Seq<char>, Seq<char>)> {
    bindings_from(c.prefixes, 0, env, home)
}

/// The metadata `ms[i..]` resolved, after `acc`; the first failure ends it.
pub open spec fn metas_expand_from(
    ms: Seq<MetaV>,
    i: nat,
    acc: Seq<MetaV>,
    vars: Seq<(Seq<char>, Seq<char>)>,
    home: Seq<char>,
) -> Result<Seq<MetaV>, Error>
    decreases ms.len() - i,
{
    if i >= ms.len() {
        Ok(acc)
    } else {
        match expand_meta_spec(ms[i as int], vars, home) {
            Err(e) => Err(e),
            Ok(m) => metas_expand_from(ms, i + 1, acc.push(m), vars, home),
        }
    }
}

/// The command `c` resolved against its own bindings: its name, then its prefixes, then
/// its suffixes.
pub open spec fn command_expand_spec(
    c: CommandV,
    env: Seq<(Seq<char>, Seq<char>)>,
    home: Seq<char>,
) -> Result<CommandV, Error> {
    let vars = vars_spec(c, env, home);
    match expand_word_spec(c.name, vars, home) {
        Err(e) => Err(e),
        Ok(n) => match metas_expand_from(c.prefixes, 0, Seq::empty(), vars, home) {
            Err(e) => Err(e),
            Ok(ps) => match metas_expand_from(c.suffixes, 0, Seq::empty(), vars, home) {
                Err(e) => Err(e),
                Ok(ss) => Ok(CommandV { name: n, prefixes: ps, suffixes: ss }),
            },
        },
    }
}

/// The commands `cs[i..]` resolved, after `acc`; the first failure ends it.
pub open spec fn commands_expand_from(
    cs: Seq<CommandV>,
    i: nat,
    acc: Seq<CommandV>,
    env: Seq<(Seq<char>, Seq<char>)>,
    home: Seq<char>,
) -> Result<Seq<CommandV>, Error>
    decreases cs.len() - i,
{
    if i >= cs.len() {
        Ok(acc)
    } else {
        match command_expand_spec(cs[i as int], env, home) {
            Err(e) => Err(e),
            Ok(c) => commands_expand_from(cs, i + 1, acc.push(c), env, home),
        }
    }
}

pub open spec fn command_type_expand_spec(
    ct: CommandTypeV,
    env: Seq<(Seq<char>, Seq<char>)>,
    home: Seq<char>,
) -> Result<CommandTypeV, Error> {
    match ct {
        CommandTypeV::Single(c) => match command_expand_spec(c, env, home) {
            Ok(c2) => Ok(CommandTypeV::Single(c2)),
            Err(e) => Err(e),
        },
        CommandTypeV::Pipeline(cs) => match commands_expand_from(cs, 0, Seq::empty(), env, home) {
            Ok(v) => Ok(CommandTypeV::Pipeline(v)),
            Err(e) => Err(e),
        },
    }
}

/// Resolves the words of `meta` against `vars`, left to right.
pub fn expand_meta(vars: &Bindings, meta: &Meta, home: &str) -> (r: Result<Meta, Error>)
    requires
        meta_wf(*meta),
    ensures
        meta_result_v(r) == expand_meta_spec(meta@, bindings_v(vars@), home@),
{
    match meta {
        Meta::Redirect(Redirect::Output { from, to, append }) => {
            let from2 = match from {
                Some(f) => match expand_word(vars, f, home) {
                    Err(e) => {
                        return Err(e);
                    },
                    Ok(f2) => Some(f2),
                },
                None => None,
            };
            match expand_word(vars, to, home) {
                Ok(t2) => Ok(Meta::Redirect(Redirect::Output { from: from2, to: t2, append: *append })),
                Err(e) => Err(e),
            }
        },
        Meta::Redirect(Redirect::Input { to }) => match expand_word(vars, to, home) {
            Ok(t2) => Ok(Meta::Redirect(Redirect::Input { to: t2 })),
            Err(e) => Err(e),
        },
        Meta::Word(w) => match expand_word(vars, w, home) {
            Ok(w2) => Ok(Meta::Word(w2)),
            Err(e) => Err(e),
        },
        Meta::Assignment(a, b) => match expand_word(vars, a, home) {
            Err(e) => Err(e),
            Ok(a2) => match expand_word(vars, b, home) {
                Ok(b2) => Ok(Meta::Assignment(a2, b2)),
                Err(e) => Err(e),
            },
        },
    }
}

/// Binds `name` to `value` in `vars`: a binding of `name` is taken out, the new one added last.
fn upsert_binding(vars: &mut Bindings, name: String, value: String)
    ensures
        bindings_v(final(vars)@) == upsert(bindings_v(old(vars)@), name@, value@),
{
    let ghost vv = bindings_v(vars@);
    let mut i: usize = 0;
    while i < vars.len() && vars[i].0 != name
        invariant
            i <= vars@.len(),
            vv == bindings_v(vars@),
            first_binding(vv, name@, i as nat) == first_binding(vv, name@, 0),
        decreases vars@.len() - i,
    {
        i += 1;
    }
    if i < vars.len() {
        vars.remove(i);
        assert(bindings_v(vars@) =~= vv.remove(i as int));
    }
    let ghost before = bindings_v(vars@);
    let pair = (name, value);
    vars.push(pair);
    assert(bindings_v(vars@) =~= before.push((pair.0@, pair.1@)));
}

/// A copy of `env`.
fn copy_bindings(env: &Bindings) -> (r: Bindings)
    ensures
        bindings_v(r@) == bindings_v(env@),
{
    let mut r: Bindings = Vec::new();
    let mut i: usize = 0;
    while i < env.len()
        invariant
            i <= env@.len(),
            bindings_v(r@) == bindings_v(env@).subrange(0, i as int),
        decreases env@.len() - i,
    {
        let ghost before = bindings_v(r@);
        let pair = (env[i].0.clone(), env[i].1.clone());
        assert(pair.0@ == env@[i as int].0@ && pair.1@ == env@[i as int].1@);
        r.push(pair);
        assert(bindings_v(r@) =~= before.push((pair.0@, pair.1@)));
        i += 1;
        assert(bindings_v(r@) =~= bindings_v(env@).subrange(0, i as int));
    }
    assert(bindings_v(env@).subrange(0, i as int) =~= bindings_v(env@));
    r
}

/// Resolves the metadata `ms` against `vars`, in order.
fn expand_metas(vars: &Bindings, ms: &Vec<Meta>, home: &str) -> (r: Result<Vec<Meta>, Error>)
    requires
        forall|k: int| 0 <= k < ms@.len() ==> meta_wf(#[trigger] ms@[k]),
    ensures
        match r {
            Ok(v) => metas_expand_from(metas_v(ms@), 0, Seq::empty(), bindings_v(vars@), home@)
                == Ok::<Seq<MetaV>, Error>(metas_v(v@)),
            Err(e) => metas_expand_from(metas_v(ms@), 0, Seq::empty(), bindings_v(vars@), home@)
                == Err::<Seq<MetaV>, Error>(e),
        },
{
    let ghost vv = bindings_v(vars@);
    let ghost msv = metas_v(ms@);
    let mut out: Vec<Meta> = Vec::new();
    let mut i: usize = 0;
    assert(metas_v(out@) =~= Seq::empty());
    while i < ms.len()
        invariant
            i <= ms@.len(),
            vv == bindings_v(vars@),
            msv == metas_v(ms@),
            forall|k: int| 0 <= k < ms@.len() ==> meta_wf(#[trigger] ms@[k]),
            metas_expand_from(msv, i as nat, metas_v(out@), vv, home@) == metas_expand_from(
                msv,
                0,
                Seq::empty(),
                vv,
                home@,
            ),
        decreases ms@.len() - i,
    {
        let ghost before = metas_v(out@);
        match expand_meta(vars, &ms[i], home) {
            Err(e) => {
                return Err(e);
            },
            Ok(m) => {
                out.push(m);
                assert(metas_v(out@) =~= before.push(m@));
            },
        }
        i += 1;
    }
    Ok(out)
}

impl Command {
    /// The bindings that the command runs with: the environment `env`, then the command's
    /// own assignments in order, each value resolved against the bindings before it.
    pub fn vars(&self, env: &Bindings, home: &str) -> (r: Bindings)
        requires
            self.wf(),
        ensures
            bindings_v(r@) == vars_spec(self@, bindings_v(env@), home@),
    {
        let ghost pre = metas_v(self.prefixes@);
        let mut vars = copy_bindings(env);
        let mut i: usize = 0;
        while i < self.prefixes.len()
            invariant
                i <= self.prefixes@.len(),
                self.wf(),
                pre == metas_v(self.prefixes@),
                bindings_from(pre, i as nat, bindings_v(vars@), home@) == vars_spec(
                    self@,
                    bindings_v(env@),
                    home@,
                ),
            decreases self.prefixes@.len() - i,
        {
            assert(meta_wf(self.prefixes@[i as int]));
            match &self.prefixes[i] {
                Meta::Assignment(a, b) => {
                    match expand_word(&vars, a, home) {
                        Ok(a2) => match expand_word(&vars, b, home) {
                            Ok(b2) => {
                                upsert_binding(&mut vars, a2.name, b2.name);
                            },
                            Err(_) => {},
                        },
                        Err(_) => {},
                    }
                },
                _ => {},
            }
            i += 1;
        }
        vars
    }
}

fn expand_command(c: &Command, env: &Bindings, home: &str) -> (r: Result<Command, Error>)
    requires
        c.wf(),
    ensures
        command_result_v(r) == command_expand_spec(c@, bindings_v(env@), home@),
{
    let vars = c.vars(env, home);
    match expand_word(&vars, &c.name, home) {
        Err(e) => Err(e),
        Ok(n) => match expand_metas(&vars, &c.prefixes, home) {
            Err(e) => Err(e),
            Ok(ps) => match expand_metas(&vars, &c.suffixes, home) {
                Err(e) => Err(e),
                Ok(ss) => Ok(Command { name: n, prefixes: ps, suffixes: ss }),
            },
        },
    }
}

/// Resolves the commands `cs` against `env`, in order.
fn expand_commands(cs: &Vec<Command>, env: &Bindings, home: &str) -> (r: Result<
    Vec<Command>,
    Error,
>)
    requires
        forall|k: int| 0 <= k < cs@.len() ==> (#[trigger] cs@[k]).wf(),
    ensures
        match r {
            Ok(v) => commands_expand_from(commands_v(cs@), 0, Seq::empty(), bindings_v(env@), home@)
                == Ok::<Seq<CommandV>, Error>(commands_v(v@)),
            Err(e) => commands_expand_from(
                commands_v(cs@),
                0,
                Seq::empty(),
                bindings_v(env@),
                home@,
            ) == Err::<Seq<CommandV>, Error>(e),
        },
{
    let ghost csv = commands_v(cs@);
    let ghost ev = bindings_v(env@);
    let mut out: Vec<Command> = Vec::new();
    let mut i: usize = 0;
    assert(commands_v(out@) =~= Seq::empty());
    while i < cs.len()
        invariant
            i <= cs@.len(),
            csv == commands_v(cs@),
            ev == bindings_v(env@),
            forall|k: int| 0 <= k < cs@.len() ==> (#[trigger] cs@[k]).wf(),
            commands_expand_from(csv, i as nat, commands_v(out@), ev, home@)
                == commands_expand_from(csv, 0, Seq::empty(), ev, home@),
        decreases cs@.len() - i,
    {
        let ghost before = commands_v(out@);
        assert(csv[i as int] == cs@[i as int]@);
        match expand_command(&cs[i], env, home) {
            Err(e) => {
                return Err(e);
            },
            Ok(c) => {
                out.push(c);
                assert(commands_v(out@) =~= before.push(c@));
            },
        }
        i += 1;
    }
    Ok(out)
}

/// What can be resolved against an environment and a home directory.
pub trait Expand: Sized + View {
    /// The words of the value are well formed.
    spec fn resolvable(&self) -> bool;

    /// The value resolved against `env` and `home`.
    spec fn expand_spec(
        v: Self::V,
        env: Seq<(Seq<char>, Seq<char>)>,
        home: Seq<char>,
    ) -> Result<Self::V, Error>;

    /// Resolves the expansions of the value against `env` and `home`.
    fn expand(self, env: &Bindings, home: &str) -> (r: Result<Self, Error>)
        requires
            self.resolvable(),
        ensures
            match r {
                Ok(x) => Self::expand_spec(self@, bindings_v(env@), home@) == Ok::<Self::V, Error>(
                    x@,
                ),
                Err(e) => Self::expand_spec(self@, bindings_v(env@), home@) == Err::<
                    Self::V,
                    Error,
                >(e),
            },
    ;
}

impl Expand for Command {
    open spec fn resolvable(&self) -> bool {
        self.wf()
    }

    open spec fn expand_spec(
        v: CommandV,
        env: Seq<(Seq<char>, Seq<char>)>,
        home: Seq<char>,
    ) -> Result<CommandV, Error> {
        command_expand_spec(v, env, home)
    }

    fn expand(self, env: &Bindings, home: &str) -> (r: Result<Command, Error>) {
        expand_command(&self, env, home)
    }
}

impl Expand for CommandType {
    open spec fn resolvable(&self) -> bool {
        self.wf()
    }

    open spec fn expand_spec(
        v: CommandTypeV,
        env: Seq<(Seq<char>, Seq<char>)>,
        home: Seq<char>,
    ) -> Result<CommandTypeV, Error> {
        command_type_expand_spec(v, env, home)
    }

    fn expand(self, env: &Bindings, home: &str) -> (r: Result<CommandType, Error>) {
        match self {
            CommandType::Single(c) => match expand_command(&c, env, home) {
                Ok(c2) => Ok(CommandType::Single(c2)),
                Err(e) => Err(e),
            },
            CommandType::Pipeline(cs) => match expand_commands(&cs, env, home) {
                Ok(v) => Ok(CommandType::Pipeline(v)),
                Err(e) => Err(e),
            },
        }
    }
}

} // verus!
