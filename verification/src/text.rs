//! Searching, splitting and comparing text, over its characters.
use vstd::prelude::*;
use vstd::string::*;
use vstd::utf8::*;

verus! {

broadcast use vstd::utf8::group_utf8_lib;

/// Whether `part` stands in `s` at `at`.
pub open spec fn occurs_at(s: Seq<char>, part: Seq<char>, at: int) -> bool {
    0 <= at && at + part.len() <= s.len() && s.subrange(at, at + part.len()) == part
}

/// Whether `part` stands anywhere in `s`.
pub open spec fn occurs(s: Seq<char>, part: Seq<char>) -> bool {
    exists|at: int| #[trigger] occurs_at(s, part, at)
}

/// The first place in `s`, from `from` on, where `part` stands.
pub open spec fn index_from(s: Seq<char>, part: Seq<char>, from: int) -> Option<int>
    decreases s.len() - from + 1,
{
    if from < 0 || from + part.len() > s.len() {
        None
    } else if occurs_at(s, part, from) {
        Some(from)
    } else {
        index_from(s, part, from + 1)
    }
}

/// Where a text is found it stands, character by character, and it stands nowhere before; where
/// none is found it stands nowhere.
pub proof fn lemma_first_place(s: Seq<char>, part: Seq<char>, from: int)
    requires
        0 <= from,
    ensures
        match index_from(s, part, from) {
            Some(at) => {
                &&& from <= at <= s.len() - part.len()
                &&& forall|k: int| 0 <= k < part.len() ==> #[trigger] part[k] == s[at + k]
                &&& forall|before: int|
                    #![trigger s.subrange(before, before + part.len())]
                    from <= before < at ==> s.subrange(before, before + part.len()) != part
            },
            None => forall|at: int|
                #![trigger s.subrange(at, at + part.len())]
                from <= at <= s.len() - part.len() ==> s.subrange(at, at + part.len()) != part,
        },
    decreases s.len() - from + 1,
{
    if from + part.len() <= s.len() {
        if occurs_at(s, part, from) {
            assert forall|k: int| 0 <= k < part.len() implies #[trigger] part[k]
                == s[from + k] by {
                assert(s.subrange(from, from + part.len())[k] == s[from + k]);
            }
        } else {
            lemma_first_place(s, part, from + 1);
        }
    }
}

/// Where a text stands, and stands nowhere before, it is found.
pub proof fn lemma_found_first(s: Seq<char>, part: Seq<char>, from: int, at: int)
    requires
        0 <= from <= at,
        occurs_at(s, part, at),
        forall|k: int| from <= k < at ==> !#[trigger] occurs_at(s, part, k),
    ensures
        index_from(s, part, from) == Some(at),
    decreases at - from,
{
    if from < at {
        lemma_found_first(s, part, from + 1, at);
    }
}

/// A text stands in another exactly if it begins somewhere in it, character by character.
pub proof fn lemma_occurs(s: Seq<char>, part: Seq<char>)
    ensures
        occurs(s, part) <==> exists|at: int|
            0 <= at <= s.len() - part.len() && #[trigger] s.subrange(at, at + part.len()) == part,
{
    if occurs(s, part) {
        let at = choose|at: int| #[trigger] occurs_at(s, part, at);
        assert(s.subrange(at, at + part.len()) == part);
    }
    if exists|at: int|
        0 <= at <= s.len() - part.len() && #[trigger] s.subrange(at, at + part.len()) == part {
        let at = choose|at: int|
            0 <= at <= s.len() - part.len() && #[trigger] s.subrange(at, at + part.len()) == part;
        assert(occurs_at(s, part, at));
    }
}

/// The first place is found exactly where `part` stands in `s` at all.
proof fn lemma_index_from(s: Seq<char>, part: Seq<char>, from: int)
    requires
        0 <= from,
        forall|k: int| 0 <= k < from ==> !#[trigger] occurs_at(s, part, k),
    ensures
        index_from(s, part, from) is Some <==> occurs(s, part),
    decreases s.len() - from + 1,
{
    if from + part.len() <= s.len() && !occurs_at(s, part, from) {
        lemma_index_from(s, part, from + 1);
    }
}

/// Whether two texts are the same.
pub fn same_text(a: &str, b: &str) -> (same: bool)
    ensures
        same == (a@ == b@),
{
    let x: &[u8] = a.as_bytes();
    let y: &[u8] = b.as_bytes();
    proof {
        assert(decode_utf8(y@) == b@);
    }
    if x.len() != y.len() {
        return false;
    }
    let mut i: usize = 0;
    while i < x.len()
        invariant
            x@.len() == y@.len(),
            i <= x@.len(),
            x@ == encode_utf8(a@),
            y@ == encode_utf8(b@),
            forall|k: int| 0 <= k < i ==> x@[k] == y@[k],
        decreases x@.len() - i,
    {
        if x[i] != y[i] {
            return false;
        }
        i += 1;
    }
    assert(x@ =~= y@);
    true
}

/// The characters of `s`.
pub fn to_chars(s: &str) -> (chars: Vec<char>)
    ensures
        chars@ == s@,
{
    let mut chars: Vec<char> = Vec::new();
    for c in it: s.chars()
        invariant
            chars@ == it.seq().take(it.index() as int),
    {
        chars.push(c);
    }
    chars
}

/// `String::push` puts the character behind those that the text holds.
pub assume_specification[ String::push ](s: &mut String, c: char)
    ensures
        final(s)@ == old(s)@.push(c),
;

/// The text of `chars[from..to]`.
pub fn from_chars(chars: &Vec<char>, from: usize, to: usize) -> (s: String)
    requires
        from <= to <= chars@.len(),
    ensures
        s@ == chars@.subrange(from as int, to as int),
{
    let mut s: String = String::new();
    let mut i: usize = from;
    while i < to
        invariant
            from <= i <= to <= chars@.len(),
            s@ == chars@.subrange(from as int, i as int),
        decreases to - i,
    {
        s.push(chars[i]);
        i += 1;
    }
    s
}

/// Whether `part` stands in `s` at `at`.
fn stands_at(s: &Vec<char>, part: &Vec<char>, at: usize) -> (stands: bool)
    ensures
        stands == occurs_at(s@, part@, at as int),
{
    if s.len() < part.len() || at > s.len() - part.len() {
        return false;
    }
    let mut i: usize = 0;
    while i < part.len()
        invariant
            at + part@.len() <= s.len(),
            i <= part@.len(),
            forall|k: int| 0 <= k < i ==> s@[at + k] == part@[k],
        decreases part@.len() - i,
    {
        if s[at + i] != part[i] {
            return false;
        }
        i += 1;
    }
    assert(s@.subrange(at as int, at + part@.len()) =~= part@);
    true
}

/// The first place in `s` where `part` stands.
pub fn find(s: &Vec<char>, part: &Vec<char>) -> (at: Option<usize>)
    ensures
        match at {
            Some(at) => at + part@.len() <= s@.len() && index_from(s@, part@, 0) == Some(
                at as int,
            ),
            None => index_from(s@, part@, 0) is None,
        },
{
    if s.len() < part.len() {
        return None;
    }
    let mut i: usize = 0;
    while i < s.len() - part.len()
        invariant
            part@.len() <= s@.len(),
            i <= s@.len() - part@.len(),
            index_from(s@, part@, 0) == index_from(s@, part@, i as int),
        decreases s@.len() - part@.len() - i,
    {
        if stands_at(s, part, i) {
            return Some(i);
        }
        i += 1;
    }
    if stands_at(s, part, i) {
        Some(i)
    } else {
        assert(index_from(s@, part@, i + 1) is None);
        None
    }
}

/// Whether `part` stands anywhere in `s`.
pub fn contains(s: &str, part: &str) -> (found: bool)
    ensures
        found == occurs(s@, part@),
{
    proof {
        lemma_index_from(s@, part@, 0);
    }
    find(&to_chars(s), &to_chars(part)).is_some()
}

} // verus!
