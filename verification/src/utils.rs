//! A very small argument parser: splits on whitespace but supports
//! double-quoted strings and backslash escapes.

use vstd::prelude::*;

use crate::text::is_space;
use crate::text::is_space_char;

verus! {

use vstd::string::StrSliceExecFns;
use vstd::string::StringExecFns;

/// The parser's accumulator: whether the last character was an unspent
/// escape, whether a quoted group is open, the argument being collected,
/// and the arguments already complete.
pub struct ArgsAcc {
    pub esc: bool,
    pub in_quotes: bool,
    pub cur: Seq<char>,
    pub out: Seq<Seq<char>>,
}

/// The accumulator before any input.
pub open spec fn args_init() -> ArgsAcc {
    ArgsAcc { esc: false, in_quotes: false, cur: Seq::empty(), out: Seq::empty() }
}

/// One character of input. An escaped character is taken literally; a
/// backslash arms the escape; a double quote toggles grouping; unquoted
/// whitespace completes the collected argument, if any; everything else is
/// collected.
pub open spec fn args_step(a: ArgsAcc, c: char) -> ArgsAcc {
    if a.esc {
        ArgsAcc { esc: false, in_quotes: a.in_quotes, cur: a.cur.push(c), out: a.out }
    } else if c == '\\' {
        ArgsAcc { esc: true, in_quotes: a.in_quotes, cur: a.cur, out: a.out }
    } else if c == '"' {
        ArgsAcc { esc: false, in_quotes: !a.in_quotes, cur: a.cur, out: a.out }
    } else if is_space_char(c) && !a.in_quotes {
        if a.cur.len() > 0 {
            ArgsAcc { esc: false, in_quotes: a.in_quotes, cur: Seq::empty(), out: a.out.push(a.cur) }
        } else {
            a
        }
    } else {
        ArgsAcc { esc: false, in_quotes: a.in_quotes, cur: a.cur.push(c), out: a.out }
    }
}

/// The accumulator after the whole input.
pub open spec fn args_fold(s: Seq<char>) -> ArgsAcc
    decreases s.len(),
{
    if s.len() == 0 {
        args_init()
    } else {
        args_step(args_fold(s.drop_last()), s.last())
    }
}

/// What the parser returns: the completed arguments, closed by the
/// still-open argument if one was being collected.
pub open spec fn parse_args_spec(s: Seq<char>) -> Seq<Seq<char>> {
    let a = args_fold(s);
    if a.cur.len() > 0 {
        a.out.push(a.cur)
    } else {
        a.out
    }
}

proof fn lemma_fold_out_nonempty(s: Seq<char>)
    ensures
        forall|k: int|
            0 <= k < args_fold(s).out.len() ==> (#[trigger] args_fold(s).out[k]).len() > 0,
    decreases s.len(),
{
    if s.len() > 0 {
        lemma_fold_out_nonempty(s.drop_last());
        let prev = args_fold(s.drop_last());
        let curr = args_fold(s);
        assert forall|k: int|
            0 <= k < curr.out.len() implies (#[trigger] curr.out[k]).len() > 0 by {
            if k < prev.out.len() {
                assert(curr.out[k] == prev.out[k]);
                assert(prev.out[k].len() > 0);
            } else {
                assert(curr.out == prev.out.push(prev.cur));
                assert(curr.out[k] == prev.cur);
            }
        }
    }
}

/// No argument the parser returns is empty.
pub proof fn lemma_args_nonempty(s: Seq<char>)
    ensures
        forall|k: int|
            0 <= k < parse_args_spec(s).len() ==> (#[trigger] parse_args_spec(s)[k]).len() > 0,
{
    lemma_fold_out_nonempty(s);
}

/// Splits a command tail into arguments: whitespace separates, double
/// quotes group, a backslash takes the next character literally.
pub fn parse_args(s: &str) -> (args: Vec<String>)
    ensures
        args.deep_view() == parse_args_spec(s@),
{
    let n = s.unicode_len();
    let mut args: Vec<String> = Vec::new();
    let mut cur = String::new();
    let mut in_quotes = false;
    let mut esc = false;
    let mut i: usize = 0;
    while i < n
        invariant
            n == s@.len(),
            0 <= i <= n,
            args_fold(s@.take(i as int)).esc == esc,
            args_fold(s@.take(i as int)).in_quotes == in_quotes,
            args_fold(s@.take(i as int)).cur == cur@,
            args_fold(s@.take(i as int)).out == args.deep_view(),
        decreases n - i,
    {
        let c = s.get_char(i);
        proof {
            assert(s@.take(i + 1).drop_last() =~= s@.take(i as int));
            assert(s@.take(i + 1).last() == s@[i as int]);
        }
        let ghost dv = args.deep_view();
        if esc {
            cur.push(c);
            esc = false;
        } else if c == '\\' {
            esc = true;
        } else if c == '"' {
            in_quotes = !in_quotes;
        } else if is_space(c) && !in_quotes {
            if !cur.as_str().is_empty() {
                let done = cur;
                cur = String::new();
                args.push(done);
                proof {
                    assert(args.deep_view() =~= dv.push(done@));
                }
            }
        } else {
            cur.push(c);
        }
        i += 1;
    }
    proof {
        assert(s@.take(n as int) =~= s@);
    }
    if !cur.as_str().is_empty() {
        let ghost dv = args.deep_view();
        let done = cur;
        args.push(done);
        proof {
            assert(args.deep_view() =~= dv.push(done@));
        }
    }
    args
}

} // verus!
