//! The arguments of a perf run.

use vstd::prelude::*;
use vstd::string::StrSliceExecFns;

use crate::shell::is_text;

verus! {

/// One of the arguments behind the program's name is `word`.
pub open spec fn flagged(args: Seq<String>, word: Seq<char>) -> bool {
    exists|i: int| 1 <= i < args.len() && (#[trigger] args[i])@ == word
}

/// Whether one of the arguments behind the program's name is `word`.
pub fn flag(args: &Vec<String>, word: &str) -> (found: bool)
    ensures
        found == flagged(args@, word@),
{
    let mut i: usize = 1;
    while i < args.len()
        invariant
            1 <= i,
            i <= args.len() || args.len() == 0,
            forall|j: int| 1 <= j < i ==> (#[trigger] args[j])@ != word@,
        decreases args.len() - i,
    {
        if is_text(&args[i], word) {
            assert(args@[i as int]@ == word@);
            return true;
        }
        i += 1;
    }
    false
}

/// What an argument gives to a key: the text behind `key=`, if it starts so.
pub open spec fn value_of(arg: Seq<char>, key: Seq<char>) -> Option<Seq<char>> {
    let n = key.len() as int;
    if arg.len() > n && arg.take(n) == key && arg[n] == '=' {
        Some(arg.skip(n + 1))
    } else {
        None
    }
}

/// What the first `k` arguments give to a key, in their order.
pub open spec fn values_of(args: Seq<String>, key: Seq<char>, k: int) -> Seq<Seq<char>>
    decreases k,
{
    if k <= 1 {
        Seq::empty()
    } else {
        match value_of(args[k - 1]@, key) {
            Some(v) => values_of(args, key, k - 1).push(v),
            None => values_of(args, key, k - 1),
        }
    }
}

/// What an argument gives to a key.
pub fn value(arg: &str, key: &str) -> (v: Option<String>)
    ensures
        match v {
            Some(text) => value_of(arg@, key@) == Some(text@),
            None => value_of(arg@, key@) is None,
        },
{
    let n: usize = key.unicode_len();
    let len: usize = arg.unicode_len();
    if len <= n {
        return None;
    }
    let mut i: usize = 0;
    while i < n
        invariant
            i <= n < len,
            n == key@.len(),
            len == arg@.len(),
            forall|j: int| 0 <= j < i ==> arg@[j] == key@[j],
        decreases n - i,
    {
        if arg.get_char(i) != key.get_char(i) {
            assert(arg@.take(n as int)[i as int] != key@[i as int]);
            return None;
        }
        i += 1;
    }
    assert(arg@.take(n as int) =~= key@);
    if arg.get_char(n) != '=' {
        return None;
    }
    let rest: &str = arg.substring_char(n + 1, len);
    assert(rest@ =~= arg@.skip(n + 1));
    Some(rest.to_owned())
}

/// What the arguments behind the program's name give to a key, in their order.
pub fn values(args: &Vec<String>, key: &str) -> (all: Vec<String>)
    ensures
        all.len() == values_of(args@, key@, args.len() as int).len(),
        forall|i: int|
            0 <= i < all.len() ==> (#[trigger] all[i])@ == values_of(
                args@,
                key@,
                args.len() as int,
            )[i],
{
    let mut all: Vec<String> = Vec::new();
    if args.len() == 0 {
        return all;
    }
    let mut k: usize = 1;
    while k < args.len()
        invariant
            1 <= k <= args.len(),
            all.len() == values_of(args@, key@, k as int).len(),
            forall|i: int|
                0 <= i < all.len() ==> (#[trigger] all[i])@ == values_of(args@, key@, k as int)[i],
        decreases args.len() - k,
    {
        if let Some(v) = value(args[k].as_str(), key) {
            all.push(v);
        }
        k += 1;
    }
    all
}

/// `v` where it is given, else `own`.
pub open spec fn given<V>(v: Option<V>, own: V) -> V {
    match v {
        Some(v) => v,
        None => own,
    }
}

/// `v` where it is given, else `own`.
pub fn given_or<V>(v: Option<V>, own: V) -> (out: V)
    ensures
        out == given(v, own),
{
    match v {
        Some(v) => v,
        None => own,
    }
}

/// A value is what stands behind its key and an equals sign, whatever it is, and
/// nothing else is.
pub proof fn law_values_stand_behind_their_key(arg: Seq<char>, key: Seq<char>, v: Seq<char>)
    ensures
        value_of(key + seq!['='] + v, key) == Some(v),
        value_of(arg, key) == Some(v) <==> arg == key + seq!['='] + v,
{
    let whole = key + seq!['='] + v;
    let n = key.len() as int;
    assert(whole.take(n) =~= key);
    assert(whole.skip(n + 1) =~= v);
    assert(whole[n] == '=');
    if value_of(arg, key) == Some(v) {
        assert(arg =~= arg.take(n) + seq![arg[n]] + arg.skip(n + 1));
    }
}

/// Every argument but the first, which names the program, can give a value, and
/// the values come in the order of the arguments.
pub proof fn law_values_come_in_order(args: Seq<String>, key: Seq<char>, k: int, v: Seq<char>)
    requires
        0 <= k < args.len(),
    ensures
        values_of(args, key, 1).len() == 0,
        k >= 1 && args[k]@ == key + seq!['='] + v ==> values_of(args, key, k + 1) == values_of(
            args,
            key,
            k,
        ).push(v),
        k >= 1 && value_of(args[k]@, key) is None ==> values_of(args, key, k + 1) == values_of(
            args,
            key,
            k,
        ),
{
    law_values_stand_behind_their_key(args[k]@, key, v);
}

/// The first argument names the program and flags nothing; any other does.
pub proof fn law_flags_stand_behind_the_program(args: Seq<String>, word: Seq<char>, i: int)
    requires
        0 <= i < args.len(),
    ensures
        args.len() == 1 ==> !flagged(args, word),
        i >= 1 && args[i]@ == word ==> flagged(args, word),
{
}

/// A value that is given stands, and else the one there was.
pub proof fn law_given_values_stand<V>(v: V, own: V)
    ensures
        given(Some(v), own) == v,
        given(None, own) == own,
{
}

} // verus!
