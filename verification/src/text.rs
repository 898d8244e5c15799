//! Small helpers on strings.

use vstd::prelude::*;
use vstd::string::StringExecFns;
use vstd::utf8::{decode_utf8, valid_utf8};

verus! {

/// Whether two strings hold the same characters.
pub fn str_eq(a: &str, b: &str) -> (r: bool)
    ensures
        r == (a@ == b@),
{
    let x = a.to_owned();
    let y = b.to_owned();
    x == y
}

/// The names of `names`, each with a `/` before it, one after the other.
pub open spec fn slashed(names: Seq<Seq<char>>) -> Seq<char>
    decreases names.len(),
{
    if names.len() == 0 {
        Seq::empty()
    } else {
        seq!['/'] + names[0] + slashed(names.drop_first())
    }
}

/// The names of `names` with a `/` between each two of them.
pub open spec fn join_path(names: Seq<Seq<char>>) -> Seq<char> {
    if names.len() == 0 {
        Seq::empty()
    } else {
        names[0] + slashed(names.drop_first())
    }
}

/// Putting a name in front of a chain puts `/` and the name in front of
/// what the chain spells.
pub proof fn lemma_slashed_front(name: Seq<char>, rest: Seq<Seq<char>>)
    ensures
        slashed(seq![name] + rest) == seq!['/'] + name + slashed(rest),
        join_path(seq![name] + rest) == name + slashed(rest),
{
    let all = seq![name] + rest;
    assert(all.drop_first() =~= rest);
    assert(all[0] == name);
}

/// What one name alone spells.
pub proof fn lemma_slashed_one(name: Seq<char>)
    ensures
        slashed(seq![name]) == seq!['/'] + name,
        join_path(seq![name]) == name,
{
    lemma_slashed_front(name, Seq::empty());
    assert(seq![name] + Seq::<Seq<char>>::empty() =~= seq![name]);
    assert(seq!['/'] + name + Seq::<char>::empty() =~= seq!['/'] + name);
    assert(name + Seq::<char>::empty() =~= name);
}

/// The path of the node called `name` below the node whose path is `prefix`.
pub fn child_path(prefix: &str, name: &str) -> (r: String)
    ensures
        r@ == prefix@ + seq!['/'] + name@,
{
    proof {
        reveal_strlit("/");
    }
    let mut s = prefix.to_owned();
    s.append("/");
    assert("/"@ =~= seq!['/']);
    s.append(name);
    s
}

/// The text that `bytes` encode. This is `String::from_utf8` of the standard
/// library, believed to accept exactly the byte sequences that are valid
/// UTF-8 and to return the characters that they encode.
#[verifier::external_body]
pub(crate) fn string_from_utf8(bytes: Vec<u8>) -> (r: Option<String>)
    ensures
        r.is_some() == valid_utf8(bytes@),
        r.is_some() ==> r.unwrap()@ == decode_utf8(bytes@),
{
    String::from_utf8(bytes).ok()
}

} // verus!
