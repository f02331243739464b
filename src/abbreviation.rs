//! Abbreviations: short command words that the line editor replaces with longer text.

use vstd::prelude::*;

use crate::expand::bindings_v;
use crate::text::{byte_count, byte_len, chars_of, concat_chars, string_from};

verus! {

/// Whether `cmd` is one of the abbreviations (the first of each pair).
pub fn has_abbreviation(abbreviations: &Vec<(String, String)>, cmd: &str) -> (r: bool)
    ensures
        r == exists|k: int|
            0 <= k < abbreviations@.len() && (#[trigger] bindings_v(abbreviations@)[k]).0 == cmd@,
{
    let ghost av = bindings_v(abbreviations@);
    let c = chars_of(cmd);
    let mut i: usize = 0;
    while i < abbreviations.len()
        invariant
            i <= abbreviations@.len(),
            av == bindings_v(abbreviations@),
            c@ == cmd@,
            forall|k: int| 0 <= k < i ==> (#[trigger] av[k]).0 != cmd@,
        decreases abbreviations@.len() - i,
    {
        let a = chars_of(abbreviations[i].0.as_str());
        if same_chars(&a, &c) {
            assert(av[i as int].0 == cmd@);
            return true;
        }
        i += 1;
    }
    false
}

fn same_chars(a: &Vec<char>, b: &Vec<char>) -> (r: bool)
    ensures
        r == (a@ == b@),
{
    if a.len() != b.len() {
        return false;
    }
    let mut i: usize = 0;
    while i < a.len()
        invariant
            i <= a@.len(),
            a@.len() == b@.len(),
            forall|k: int| 0 <= k < i ==> a@[k] == b@[k],
        decreases a@.len() - i,
    {
        if a[i] != b[i] {
            return false;
        }
        i += 1;
    }
    assert(a@ =~= b@);
    true
}

/// The abbreviation `a` applies to `line`: the line is `a`, or (unless `only_if_equal`)
/// starts with `a` and a blank.
pub open spec fn applies(a: Seq<char>, line: Seq<char>, only_if_equal: bool) -> bool {
    ||| line == a
    ||| !only_if_equal && line.len() > a.len() && line.subrange(0, a.len() as int) == a
        && line[a.len() as int] == ' '
}

/// The index of the first abbreviation from `i` on that applies to `line`.
pub open spec fn first_applying(
    abbreviations: Seq<(Seq<char>, Seq<char>)>,
    line: Seq<char>,
    only_if_equal: bool,
    i: nat,
) -> Option<nat>
    decreases abbreviations.len() - i,
{
    if i >= abbreviations.len() {
        None
    } else if applies(abbreviations[i as int].0, line, only_if_equal) {
        Some(i)
    } else {
        first_applying(abbreviations, line, only_if_equal, i + 1)
    }
}

fn applies_exec(a: &Vec<char>, line: &Vec<char>, only_if_equal: bool) -> (r: bool)
    ensures
        r == applies(a@, line@, only_if_equal),
{
    if same_chars(a, line) {
        return true;
    }
    if only_if_equal || line.len() <= a.len() {
        return false;
    }
    let mut i: usize = 0;
    while i < a.len()
        invariant
            i <= a@.len() < line@.len(),
            forall|k: int| 0 <= k < i ==> a@[k] == line@[k],
        decreases a@.len() - i,
    {
        if a[i] != line[i] {
            assert(line@.subrange(0, a@.len() as int)[i as int] != a@[i as int]);
            return false;
        }
        i += 1;
    }
    assert(line@.subrange(0, a@.len() as int) =~= a@);
    line[a.len()] == ' '
}

/// Replaces the first abbreviation that applies to `line` by its expansion, and gives the
/// new line with the change in length, in bytes. `None` where no abbreviation applies, or
/// where a length does not fit in `isize`.
pub fn expand_abbreviation(abbreviations: &Vec<(String, String)>, line: &str, only_if_equal: bool) -> (r:
    Option<(String, isize)>)
    ensures
        ({
            let av = bindings_v(abbreviations@);
            match first_applying(av, line@, only_if_equal, 0) {
                None => r is None,
                Some(k) => {
                    let (a, b) = av[k as int];
                    &&& r is None <==> (byte_len(a) > isize::MAX || byte_len(b) > isize::MAX)
                    &&& r matches Some((s, d)) ==> s@ == b + line@.subrange(
                        a.len() as int,
                        line@.len() as int,
                    ) && d == byte_len(b) - byte_len(a)
                },
            }
        }),
{
    let ghost av = bindings_v(abbreviations@);
    let l = chars_of(line);
    let mut i: usize = 0;
    while i < abbreviations.len()
        invariant
            i <= abbreviations@.len(),
            av == bindings_v(abbreviations@),
            l@ == line@,
            first_applying(av, line@, only_if_equal, i as nat) == first_applying(
                av,
                line@,
                only_if_equal,
                0,
            ),
        decreases abbreviations@.len() - i,
    {
        let a = chars_of(abbreviations[i].0.as_str());
        if applies_exec(&a, &l, only_if_equal) {
            let b = chars_of(abbreviations[i].1.as_str());
            let a_bytes = byte_count(abbreviations[i].0.as_str());
            let b_bytes = byte_count(abbreviations[i].1.as_str());
            if a_bytes > isize::MAX as usize || b_bytes > isize::MAX as usize {
                return None;
            }
            let mut out: Vec<char> = Vec::new();
            concat_chars(&mut out, &b, 0, b.len());
            concat_chars(&mut out, &l, a.len(), l.len());
            assert(b@.subrange(0, b@.len() as int) =~= b@);
            assert(out@ =~= b@ + line@.subrange(a@.len() as int, line@.len() as int));
            let d = b_bytes as isize - a_bytes as isize;
            return Some((string_from(&out), d));
        }
        i += 1;
    }
    None
}

} // verus!
