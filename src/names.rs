//! Brick names: the hyphen and underscore spellings, validation, and the bare
//! distribution name carried by a dependency specifier.

use vstd::prelude::*;

use crate::error::PascalError;

verus! {

/// The underscore spelling of a name: every `-` becomes `_`.
pub open spec fn underscored(s: Seq<char>) -> Seq<char> {
    s.map_values(|c: char| if c == '-' { '_' } else { c })
}

/// The hyphen spelling of a name: every `_` becomes `-`.
pub open spec fn hyphenated(s: Seq<char>) -> Seq<char> {
    s.map_values(|c: char| if c == '_' { '-' } else { c })
}

/// A character that ends the bare name in a dependency specifier.
pub open spec fn is_specifier_stop(c: char) -> bool {
    c == '>' || c == '<' || c == '=' || c == '[' || c == ';' || c == ' '
}

/// Length of the bare name: the characters before the first stop character.
pub open spec fn bare_len(s: Seq<char>) -> nat
    decreases s.len(),
{
    if s.len() == 0 {
        0
    } else if is_specifier_stop(s[0]) {
        0
    } else {
        1 + bare_len(s.drop_first())
    }
}

/// The bare distribution name of a dependency specifier (`httpx>=0.27` gives
/// `httpx`), before normalization.
pub open spec fn bare_name(s: Seq<char>) -> Seq<char> {
    s.take(bare_len(s) as int)
}

/// The workspace name that a dependency specifier refers to: its bare name in
/// underscore spelling.
pub open spec fn dep_name(s: Seq<char>) -> Seq<char> {
    underscored(bare_name(s))
}

/// A character allowed in a brick name.
pub open spec fn is_name_char(c: char) -> bool {
    ('a' <= c && c <= 'z') || ('A' <= c && c <= 'Z') || ('0' <= c && c <= '9') || c == '_'
        || c == '-'
}

/// A valid brick name: non-empty, letters, digits, `_` and `-` only.
pub open spec fn is_valid_name(s: Seq<char>) -> bool {
    s.len() > 0 && forall|i: int| 0 <= i < s.len() ==> is_name_char(#[trigger] s[i])
}

/// `p` is a prefix of `s`.
pub open spec fn has_prefix(s: Seq<char>, p: Seq<char>) -> bool {
    p.len() <= s.len() && s.take(p.len() as int) == p
}

/// The bare length is the index of the first stop character, or the length.
pub proof fn lemma_bare_len(s: Seq<char>, k: int)
    requires
        0 <= k <= s.len(),
        forall|i: int| 0 <= i < k ==> !is_specifier_stop(#[trigger] s[i]),
        k == s.len() || is_specifier_stop(s[k]),
    ensures
        bare_len(s) == k,
    decreases k,
{
    if k > 0 {
        assert(!is_specifier_stop(s[0]));
        let t = s.drop_first();
        assert forall|i: int| 0 <= i < k - 1 implies !is_specifier_stop(#[trigger] t[i]) by {
            assert(t[i] == s[i + 1]);
        }
        if k < s.len() {
            assert(t[k - 1] == s[k]);
        }
        lemma_bare_len(t, k - 1);
    }
}

/// Replaces every `from` by the single character of `to`.
fn replace_char(s: &str, from: char, to: &str) -> (r: String)
    requires
        to@.len() == 1,
    ensures
        r@ == s@.map_values(|c: char| if c == from { to@[0] } else { c }),
{
    let n = s.unicode_len();
    let mut r = String::new();
    let mut i: usize = 0;
    while i < n
        invariant
            n == s@.len(),
            to@.len() == 1,
            i <= n,
            r@ == s@.take(i as int).map_values(|c: char| if c == from { to@[0] } else { c }),
        decreases n - i,
    {
        let c = s.get_char(i);
        if c == from {
            r.append(to);
        } else {
            r.append(s.substring_char(i, i + 1));
        }
        assert(s@.take(i + 1) == s@.take(i as int).push(c));
        assert(r@ == s@.take(i + 1).map_values(|c: char| if c == from { to@[0] } else { c }));
        i = i + 1;
    }
    assert(s@.take(n as int) == s@);
    r
}

/// The underscore spelling of `name`.
pub fn to_underscore(name: &str) -> (r: String)
    ensures
        r@ == underscored(name@),
{
    proof {
        reveal_strlit("_");
    }
    replace_char(name, '-', "_")
}

/// The hyphen spelling of `name`.
pub fn to_hyphen(name: &str) -> (r: String)
    ensures
        r@ == hyphenated(name@),
{
    proof {
        reveal_strlit("-");
    }
    replace_char(name, '_', "-")
}

/// Whether `c` ends the bare name in a dependency specifier.
fn is_stop_char(c: char) -> (r: bool)
    ensures
        r == is_specifier_stop(c),
{
    c == '>' || c == '<' || c == '=' || c == '[' || c == ';' || c == ' '
}

/// The bare distribution name of a dependency specifier: the text before the
/// first of `> < = [ ;` and space.
pub fn bare_dependency_name(spec: &str) -> (r: String)
    ensures
        r@ == bare_name(spec@),
{
    let n = spec.unicode_len();
    let mut k: usize = 0;
    while k < n && !is_stop_char(spec.get_char(k))
        invariant
            n == spec@.len(),
            k <= n,
            forall|i: int| 0 <= i < k ==> !is_specifier_stop(#[trigger] spec@[i]),
        decreases n - k,
    {
        k = k + 1;
    }
    proof {
        lemma_bare_len(spec@, k as int);
    }
    spec.substring_char(0, k).to_owned()
}

/// The workspace name a dependency specifier refers to: its bare name with
/// `-` spelled `_`.
pub fn dependency_name(spec: &str) -> (r: String)
    ensures
        r@ == dep_name(spec@),
{
    let bare = bare_dependency_name(spec);
    to_underscore(bare.as_str())
}

/// Whether `s` starts with `p`.
pub fn starts_with(s: &str, p: &str) -> (r: bool)
    ensures
        r == has_prefix(s@, p@),
{
    let n = s.unicode_len();
    let m = p.unicode_len();
    if m > n {
        return false;
    }
    let mut i: usize = 0;
    while i < m
        invariant
            n == s@.len(),
            m == p@.len(),
            m <= n,
            i <= m,
            forall|j: int| 0 <= j < i ==> s@[j] == p@[j],
        decreases m - i,
    {
        if s.get_char(i) != p.get_char(i) {
            assert(s@.take(m as int)[i as int] != p@[i as int]);
            return false;
        }
        i = i + 1;
    }
    assert(s@.take(m as int) == p@);
    true
}

/// Whether `a` and `b` hold the same characters.
pub fn same_text(a: &str, b: &str) -> (r: bool)
    ensures
        r == (a@ == b@),
{
    if a.unicode_len() != b.unicode_len() {
        return false;
    }
    let r = starts_with(a, b);
    assert(a@.take(b@.len() as int) == a@);
    r
}

/// Accepts a brick name made of letters, digits, `_` and `-`, and not empty.
pub fn validate_name(name: &str) -> (r: Result<(), PascalError>)
    ensures
        r is Ok <==> is_valid_name(name@),
        r is Err ==> (r matches Err(PascalError::InvalidName(m)) && m@ == name@),
{
    let n = name.unicode_len();
    let mut i: usize = 0;
    while i < n
        invariant
            n == name@.len(),
            i <= n,
            forall|j: int| 0 <= j < i ==> is_name_char(#[trigger] name@[j]),
        decreases n - i,
    {
        let c = name.get_char(i);
        let ok = ('a' <= c && c <= 'z') || ('A' <= c && c <= 'Z') || ('0' <= c && c <= '9')
            || c == '_' || c == '-';
        if !ok {
            return Err(PascalError::InvalidName(name.to_owned()));
        }
        i = i + 1;
    }
    if n == 0 {
        return Err(PascalError::InvalidName(name.to_owned()));
    }
    Ok(())
}

} // verus!
