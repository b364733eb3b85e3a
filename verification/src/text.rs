//! Character-level operations on strings.
//!
//! Every contract speaks of a string by its view, the sequence of its
//! characters.
use vstd::prelude::*;

verus! {

/// `s` begins with `prefix`.
pub open spec fn has_prefix(s: Seq<char>, prefix: Seq<char>) -> bool {
    &&& prefix.len() <= s.len()
    &&& s.take(prefix.len() as int) == prefix
}

/// What is left of `s` behind `prefix`, where `s` begins with it.
pub open spec fn without_prefix(s: Seq<char>, prefix: Seq<char>) -> Option<Seq<char>> {
    if has_prefix(s, prefix) {
        Some(s.skip(prefix.len() as int))
    } else {
        None
    }
}

/// `needle` stands in `s` at position `i`.
pub open spec fn occurs_at(s: Seq<char>, needle: Seq<char>, i: int) -> bool {
    &&& 0 <= i
    &&& i + needle.len() <= s.len()
    &&& s.subrange(i, i + needle.len()) == needle
}

/// `needle` stands somewhere in `s`.
pub open spec fn has_substring(s: Seq<char>, needle: Seq<char>) -> bool {
    exists|i: int| #[trigger] occurs_at(s, needle, i)
}

/// Position of the first `c` in `s`.
pub open spec fn first_index(s: Seq<char>, c: char) -> Option<int>
    decreases s.len(),
{
    if s.len() == 0 {
        None
    } else if s[0] == c {
        Some(0)
    } else {
        match first_index(s.drop_first(), c) {
            Some(i) => Some(i + 1),
            None => None,
        }
    }
}

/// Position of the last `c` in `s`.
pub open spec fn last_index(s: Seq<char>, c: char) -> Option<int>
    decreases s.len(),
{
    if s.len() == 0 {
        None
    } else if s.last() == c {
        Some(s.len() - 1)
    } else {
        last_index(s.drop_last(), c)
    }
}

/// The parts of `s` before and behind its first `c`.
pub open spec fn split_first(s: Seq<char>, c: char) -> Option<(Seq<char>, Seq<char>)> {
    match first_index(s, c) {
        Some(i) => Some((s.take(i), s.skip(i + 1))),
        None => None,
    }
}

/// The parts of `s` before and behind its last `c`.
pub open spec fn split_last(s: Seq<char>, c: char) -> Option<(Seq<char>, Seq<char>)> {
    match last_index(s, c) {
        Some(i) => Some((s.take(i), s.skip(i + 1))),
        None => None,
    }
}

/// The pieces of `s` between its occurrences of `c`; there is always one more
/// piece than there are occurrences.
pub open spec fn pieces(s: Seq<char>, c: char) -> Seq<Seq<char>>
    decreases s.len(),
{
    if s.len() == 0 {
        seq![Seq::<char>::empty()]
    } else {
        let init = pieces(s.drop_last(), c);
        if s.last() == c {
            init.push(Seq::<char>::empty())
        } else {
            init.drop_last().push(init.last().push(s.last()))
        }
    }
}

/// The characters that Unicode gives the property White_Space.
pub open spec fn is_space(c: char) -> bool {
    ||| 0x9 <= c as u32 <= 0xd
    ||| c as u32 == 0x20
    ||| c as u32 == 0x85
    ||| c as u32 == 0xa0
    ||| c as u32 == 0x1680
    ||| 0x2000 <= c as u32 <= 0x200a
    ||| c as u32 == 0x2028
    ||| c as u32 == 0x2029
    ||| c as u32 == 0x202f
    ||| c as u32 == 0x205f
    ||| c as u32 == 0x3000
}

/// The control characters, Unicode's general category Cc.
pub open spec fn is_control_char(c: char) -> bool {
    c as u32 <= 0x1f || 0x7f <= c as u32 <= 0x9f
}

/// `s` without the characters of `drop` at its start.
pub open spec fn trimmed_start(s: Seq<char>, drop: spec_fn(char) -> bool) -> Seq<char>
    decreases s.len(),
{
    if s.len() > 0 && drop(s[0]) {
        trimmed_start(s.drop_first(), drop)
    } else {
        s
    }
}

/// `s` without the characters of `drop` at its end.
pub open spec fn trimmed_end(s: Seq<char>, drop: spec_fn(char) -> bool) -> Seq<char>
    decreases s.len(),
{
    if s.len() > 0 && drop(s.last()) {
        trimmed_end(s.drop_last(), drop)
    } else {
        s
    }
}

/// `s` without white space around it.
pub open spec fn trimmed(s: Seq<char>) -> Seq<char> {
    trimmed_end(trimmed_start(s, |c: char| is_space(c)), |c: char| is_space(c))
}

/// The predicate that holds of `c` alone.
pub open spec fn equals(c: char) -> spec_fn(char) -> bool {
    |y: char| y == c
}

/// `s` without the `c` around it.
pub open spec fn trimmed_of(s: Seq<char>, c: char) -> Seq<char> {
    trimmed_end(trimmed_start(s, equals(c)), equals(c))
}

/// The words of `s`: its longest runs without white space.
pub open spec fn words(s: Seq<char>) -> Seq<Seq<char>>
    decreases s.len(),
{
    if s.len() == 0 {
        Seq::empty()
    } else {
        let init = words(s.drop_last());
        if is_space(s.last()) {
            init
        } else if s.len() == 1 || is_space(s[s.len() - 2]) {
            init.push(seq![s.last()])
        } else {
            init.drop_last().push(init.last().push(s.last()))
        }
    }
}

/// The first line of `s`, without its end.
pub open spec fn first_line(s: Seq<char>) -> Seq<char> {
    match split_first(s, '\n') {
        Some((line, _)) => line,
        None => s,
    }
}

/// The strings of `parts` with `sep` between each two.
pub open spec fn joined(parts: Seq<Seq<char>>, sep: Seq<char>) -> Seq<char>
    decreases parts.len(),
{
    if parts.len() == 0 {
        Seq::empty()
    } else if parts.len() == 1 {
        parts[0]
    } else {
        joined(parts.drop_last(), sep) + sep + parts.last()
    }
}

/// `a` stands before `b` in the order of their code points, which is also the
/// order of their UTF-8 bytes.
pub open spec fn precedes(a: Seq<char>, b: Seq<char>) -> bool
    decreases b.len(),
{
    if b.len() == 0 {
        false
    } else if a.len() == 0 {
        true
    } else if a[0] != b[0] {
        (a[0] as int) < (b[0] as int)
    } else {
        precedes(a.drop_first(), b.drop_first())
    }
}

/// The views of a list of strings.
pub open spec fn texts(list: Seq<String>) -> Seq<Seq<char>> {
    list.map_values(|s: String| s@)
}

/// The view of an optional string.
pub open spec fn maybe_text(s: Option<String>) -> Option<Seq<char>> {
    match s {
        Some(text) => Some(text@),
        None => None,
    }
}

/// The views of a list of pairs of strings.
pub open spec fn pair_texts(list: Seq<(String, String)>) -> Seq<(Seq<char>, Seq<char>)> {
    list.map_values(|p: (String, String)| (p.0@, p.1@))
}

/// The value of the first pair with the key.
pub open spec fn first_value(env: Seq<(Seq<char>, Seq<char>)>, key: Seq<char>) -> Option<Seq<char>>
    decreases env.len(),
{
    if env.len() == 0 {
        None
    } else if env[0].0 == key {
        Some(env[0].1)
    } else {
        first_value(env.drop_first(), key)
    }
}

pub proof fn lemma_first_index(s: Seq<char>, c: char)
    ensures
        match first_index(s, c) {
            Some(i) => 0 <= i < s.len() && s[i] == c && forall|j: int| 0 <= j < i ==> s[j] != c,
            None => !s.contains(c),
        },
    decreases s.len(),
{
    if s.len() > 0 && s[0] != c {
        lemma_first_index(s.drop_first(), c);
        if first_index(s.drop_first(), c) is None {
            assert forall|j: int| 0 <= j < s.len() implies s[j] != c by {
                if j > 0 {
                    assert(s.drop_first()[j - 1] == s[j]);
                    assert(!s.drop_first().contains(c));
                    assert(s.drop_first().contains(s.drop_first()[j - 1]));
                }
            }
        } else {
            let i = first_index(s.drop_first(), c)->0;
            assert forall|j: int| 0 <= j < i + 1 implies s[j] != c by {
                if j > 0 {
                    assert(s.drop_first()[j - 1] == s[j]);
                }
            }
        }
    }
}

/// The first index is the only position with its properties.
pub proof fn lemma_first_index_at(s: Seq<char>, c: char, i: int)
    requires
        0 <= i < s.len(),
        s[i] == c,
        forall|j: int| 0 <= j < i ==> s[j] != c,
    ensures
        first_index(s, c) == Some(i),
{
    lemma_first_index(s, c);
    assert(s.contains(s[i]));
}

pub proof fn lemma_last_index(s: Seq<char>, c: char)
    ensures
        match last_index(s, c) {
            Some(i) => 0 <= i < s.len() && s[i] == c && forall|j: int| i < j < s.len() ==> s[j] != c,
            None => !s.contains(c),
        },
    decreases s.len(),
{
    if s.len() > 0 && s.last() != c {
        let init = s.drop_last();
        lemma_last_index(init, c);
        if last_index(init, c) is None {
            assert forall|j: int| 0 <= j < s.len() implies s[j] != c by {
                if j < init.len() {
                    assert(init[j] == s[j]);
                    assert(init.contains(init[j]));
                }
            }
        } else {
            let i = last_index(init, c)->0;
            assert(init[i] == s[i]);
            assert forall|j: int| i < j < s.len() implies s[j] != c by {
                if j < init.len() {
                    assert(init[j] == s[j]);
                }
            }
        }
    }
}

/// The last index is the only position with its properties.
pub proof fn lemma_last_index_at(s: Seq<char>, c: char, i: int)
    requires
        0 <= i < s.len(),
        s[i] == c,
        forall|j: int| i < j < s.len() ==> s[j] != c,
    ensures
        last_index(s, c) == Some(i),
{
    lemma_last_index(s, c);
    assert(s.contains(s[i]));
}

pub proof fn lemma_trimmed_start(s: Seq<char>, drop: spec_fn(char) -> bool, i: int)
    requires
        0 <= i <= s.len(),
        forall|j: int| 0 <= j < i ==> drop(#[trigger] s[j]),
        i < s.len() ==> !drop(s[i]),
    ensures
        trimmed_start(s, drop) == s.skip(i),
    decreases i,
{
    if i > 0 {
        let rest = s.drop_first();
        assert forall|j: int| 0 <= j < i - 1 implies drop(#[trigger] rest[j]) by {
            assert(rest[j] == s[j + 1]);
        }
        if i < s.len() {
            assert(rest[i - 1] == s[i]);
        }
        lemma_trimmed_start(rest, drop, i - 1);
        assert(rest.skip(i - 1) =~= s.skip(i));
        assert(drop(s[0]));
    } else {
        assert(s.skip(0) =~= s);
    }
}

pub proof fn lemma_trimmed_end(s: Seq<char>, drop: spec_fn(char) -> bool, i: int)
    requires
        0 <= i <= s.len(),
        forall|j: int| i <= j < s.len() ==> drop(#[trigger] s[j]),
        i > 0 ==> !drop(s[i - 1]),
    ensures
        trimmed_end(s, drop) == s.take(i),
    decreases s.len(),
{
    if i < s.len() {
        let init = s.drop_last();
        assert forall|j: int| i <= j < init.len() implies drop(#[trigger] init[j]) by {
            assert(init[j] == s[j]);
        }
        if i > 0 {
            assert(init[i - 1] == s[i - 1]);
        }
        lemma_trimmed_end(init, drop, i);
        assert(init.take(i) =~= s.take(i));
        assert(drop(s[s.len() - 1]));
    } else {
        assert(s.take(i) =~= s);
    }
}

/// Nothing is left to trim off a string whose first and last characters stay.
pub proof fn lemma_trimmed_keeps(s: Seq<char>, drop: spec_fn(char) -> bool)
    requires
        s.len() > 0 ==> !drop(s[0]) && !drop(s.last()),
    ensures
        trimmed_end(trimmed_start(s, drop), drop) == s,
{
}

/// The pieces, joined again around `c`, make up the whole.
pub proof fn law_pieces_join_back(s: Seq<char>, c: char)
    ensures
        pieces(s, c).len() >= 1,
        joined(pieces(s, c), seq![c]) == s,
    decreases s.len(),
{
    let p = pieces(s, c);
    if s.len() == 0 {
        assert(s =~= Seq::<char>::empty());
    } else {
        let init = pieces(s.drop_last(), c);
        law_pieces_join_back(s.drop_last(), c);
        let whole = joined(init, seq![c]);
        assert(s =~= whole.push(s.last()));
        if s.last() == c {
            assert(p.drop_last() =~= init);
            assert(joined(p, seq![c]) =~= whole + seq![c] + Seq::<char>::empty());
        } else {
            let front = init.drop_last();
            assert(p.drop_last() =~= front);
            if front.len() == 0 {
                assert(p[0] == init[0].push(s.last()));
            } else {
                assert(joined(p, seq![c]) =~= whole.push(s.last()));
            }
        }
    }
}

/// The last piece is what stands behind the last `c`.
pub proof fn lemma_pieces_last(s: Seq<char>, c: char)
    ensures
        pieces(s, c).len() >= 1,
        match last_index(s, c) {
            Some(i) => pieces(s, c).last() == s.skip(i + 1) && pieces(s, c).len() >= 2,
            None => pieces(s, c) == seq![s],
        },
    decreases s.len(),
{
    if s.len() > 0 {
        let init = s.drop_last();
        lemma_pieces_last(init, c);
        lemma_last_index(init, c);
        if s.last() == c {
            assert(s.skip(s.len() as int) =~= Seq::<char>::empty());
        } else {
            match last_index(init, c) {
                Some(i) => {
                    assert(init.skip(i + 1).push(s.last()) =~= s.skip(i + 1));
                },
                None => {
                    assert(init.push(s.last()) =~= s);
                    assert(pieces(s, c) =~= seq![s]);
                },
            }
        }
    } else {
        assert(s =~= Seq::<char>::empty());
    }
}

pub proof fn lemma_precedes_irreflexive(a: Seq<char>)
    ensures
        !precedes(a, a),
    decreases a.len(),
{
    if a.len() > 0 {
        lemma_precedes_irreflexive(a.drop_first());
    }
}

pub proof fn lemma_precedes_total(a: Seq<char>, b: Seq<char>)
    ensures
        precedes(a, b) || precedes(b, a) || a == b,
    decreases b.len(),
{
    if a.len() > 0 && b.len() > 0 && a[0] == b[0] {
        lemma_precedes_total(a.drop_first(), b.drop_first());
        if a.drop_first() == b.drop_first() {
            assert(a =~= seq![a[0]] + a.drop_first());
            assert(b =~= seq![b[0]] + b.drop_first());
        }
    } else if a.len() == 0 && b.len() == 0 {
        assert(a =~= b);
    }
}

pub proof fn lemma_precedes_transitive(a: Seq<char>, b: Seq<char>, c: Seq<char>)
    requires
        precedes(a, b),
        precedes(b, c),
    ensures
        precedes(a, c),
    decreases c.len(),
{
    if a.len() > 0 && a[0] == b[0] && b[0] == c[0] {
        lemma_precedes_transitive(a.drop_first(), b.drop_first(), c.drop_first());
    }
}

/// Joining around a character and splitting at its last occurrence gives the
/// parts back, if the second part is free of it.
pub proof fn lemma_split_last_joined(head: Seq<char>, tail: Seq<char>, c: char)
    requires
        !tail.contains(c),
    ensures
        split_last(head + seq![c] + tail, c) == Some((head, tail)),
{
    let s = head + seq![c] + tail;
    let i = head.len() as int;
    assert forall|j: int| i < j < s.len() implies s[j] != c by {
        assert(s[j] == tail[j - i - 1]);
        assert(tail.contains(tail[j - i - 1]));
    }
    lemma_last_index_at(s, c, i);
    assert(s.take(i) =~= head);
    assert(s.skip(i + 1) =~= tail);
}

/// What stands behind the last occurrence of a character is free of it.
pub proof fn lemma_split_last_tail(s: Seq<char>, c: char)
    ensures
        split_last(s, c) matches Some(parts) ==> !parts.1.contains(c) && s == parts.0 + seq![c]
            + parts.1,
{
    lemma_last_index(s, c);
    if let Some(i) = last_index(s, c) {
        let tail = s.skip(i + 1);
        assert forall|j: int| 0 <= j < tail.len() implies tail[j] != c by {
            assert(tail[j] == s[i + 1 + j]);
        }
        assert(s =~= s.take(i) + seq![c] + tail);
    }
}

/// Trimming only drops characters.
pub proof fn lemma_trimmed_of_part(s: Seq<char>, c: char, x: char)
    ensures
        trimmed_of(s, c).contains(x) ==> s.contains(x),
{
    lemma_trimmed_start_part(s, equals(c), x);
    lemma_trimmed_end_part(trimmed_start(s, equals(c)), equals(c), x);
}

proof fn lemma_trimmed_start_part(s: Seq<char>, drop: spec_fn(char) -> bool, x: char)
    ensures
        trimmed_start(s, drop).contains(x) ==> s.contains(x),
    decreases s.len(),
{
    if s.len() > 0 && drop(s[0]) {
        lemma_trimmed_start_part(s.drop_first(), drop, x);
        if s.drop_first().contains(x) {
            let i = choose|i: int| 0 <= i < s.drop_first().len() && s.drop_first()[i] == x;
            assert(s[i + 1] == x);
        }
    }
}

proof fn lemma_trimmed_end_part(s: Seq<char>, drop: spec_fn(char) -> bool, x: char)
    ensures
        trimmed_end(s, drop).contains(x) ==> s.contains(x),
    decreases s.len(),
{
    if s.len() > 0 && drop(s.last()) {
        lemma_trimmed_end_part(s.drop_last(), drop, x);
        if s.drop_last().contains(x) {
            let i = choose|i: int| 0 <= i < s.drop_last().len() && s.drop_last()[i] == x;
            assert(s[i] == x);
        }
    }
}

/// A character of a concatenation stands in one of its parts.
pub proof fn lemma_contains_concat(a: Seq<char>, b: Seq<char>, x: char)
    ensures
        (a + b).contains(x) <==> a.contains(x) || b.contains(x),
{
    if (a + b).contains(x) {
        let i = choose|i: int| 0 <= i < (a + b).len() && (a + b)[i] == x;
        if i < a.len() {
            assert(a[i] == x);
        } else {
            assert(b[i - a.len()] == x);
        }
    }
    if a.contains(x) {
        let i = choose|i: int| 0 <= i < a.len() && a[i] == x;
        assert((a + b)[i] == x);
    }
    if b.contains(x) {
        let i = choose|i: int| 0 <= i < b.len() && b[i] == x;
        assert((a + b)[a.len() + i] == x);
    }
}

/// The characters of `s`, in order.
pub fn char_vec(s: &str) -> (chars: Vec<char>)
    ensures
        chars@ == s@,
{
    let mut chars: Vec<char> = Vec::new();
    for c in it: s.chars()
        invariant
            chars@ == it.seq().take(it.index() as int),
            it.seq() == s@,
    {
        chars.push(c);
    }
    chars
}

/// Whether two strings hold the same characters.
pub fn same(a: &str, b: &str) -> (r: bool)
    ensures
        r == (a@ == b@),
{
    let x = char_vec(a);
    let y = char_vec(b);
    if x.len() != y.len() {
        return false;
    }
    for i in 0..x.len()
        invariant
            x@.len() == y@.len(),
            x@ == a@,
            y@ == b@,
            forall|j: int| 0 <= j < i ==> x@[j] == y@[j],
    {
        if x[i] != y[i] {
            return false;
        }
    }
    assert(x@ =~= y@);
    true
}

/// Whether `s` holds the character `c`.
pub fn contains_char(s: &str, c: char) -> (r: bool)
    ensures
        r == s@.contains(c),
{
    let x = char_vec(s);
    for i in 0..x.len()
        invariant
            x@ == s@,
            forall|j: int| 0 <= j < i ==> x@[j] != c,
    {
        if x[i] == c {
            assert(s@[i as int] == c);
            return true;
        }
    }
    false
}

/// Whether `s` begins with `prefix`.
pub fn starts_with(s: &str, prefix: &str) -> (r: bool)
    ensures
        r == has_prefix(s@, prefix@),
{
    let x = char_vec(s);
    let p = char_vec(prefix);
    if p.len() > x.len() {
        return false;
    }
    for i in 0..p.len()
        invariant
            x@ == s@,
            p@ == prefix@,
            p@.len() <= x@.len(),
            forall|j: int| 0 <= j < i ==> x@[j] == p@[j],
    {
        if x[i] != p[i] {
            assert(s@.take(prefix@.len() as int)[i as int] != prefix@[i as int]);
            return false;
        }
    }
    assert(s@.take(prefix@.len() as int) =~= prefix@);
    true
}

/// Whether the first character of `s` is `c`.
pub fn starts_with_char(s: &str, c: char) -> (r: bool)
    ensures
        r == (s@.len() > 0 && s@[0] == c),
{
    let x = char_vec(s);
    x.len() > 0 && x[0] == c
}

/// The rest of `s` behind `prefix`.
pub fn strip_prefix<'a>(s: &'a str, prefix: &str) -> (r: Option<&'a str>)
    ensures
        match r {
            Some(rest) => without_prefix(s@, prefix@) == Some(rest@),
            None => without_prefix(s@, prefix@) is None,
        },
{
    if starts_with(s, prefix) {
        Some(s.substring_char(prefix.unicode_len(), s.unicode_len()))
    } else {
        None
    }
}

/// Whether `needle` stands in `s` at position `i`.
fn stands_at(s: &Vec<char>, needle: &Vec<char>, i: usize) -> (r: bool)
    requires
        i + needle@.len() <= s@.len(),
    ensures
        r == occurs_at(s@, needle@, i as int),
{
    assert(s.len() <= usize::MAX);
    for k in 0..needle.len()
        invariant
            i + needle@.len() <= s@.len(),
            s@.len() <= usize::MAX,
            forall|j: int| 0 <= j < k ==> s@[i + j] == needle@[j],
    {
        if s[i + k] != needle[k] {
            assert(s@.subrange(i as int, i + needle@.len())[k as int] != needle@[k as int]);
            return false;
        }
    }
    assert(s@.subrange(i as int, i + needle@.len()) =~= needle@);
    true
}

/// Whether `needle` stands somewhere in `s`.
pub fn contains(s: &str, needle: &str) -> (r: bool)
    ensures
        r == has_substring(s@, needle@),
{
    let x = char_vec(s);
    let n = char_vec(needle);
    if n.len() > x.len() {
        return false;
    }
    let last: usize = x.len() - n.len();
    let mut i: usize = 0;
    while i <= last
        invariant
            x@ == s@,
            n@ == needle@,
            i <= last + 1,
            last + n@.len() == x@.len(),
            last < usize::MAX || n@.len() == 0,
            forall|j: int| 0 <= j < i ==> !occurs_at(s@, needle@, j),
        decreases last + 1 - i,
    {
        if stands_at(&x, &n, i) {
            return true;
        }
        if i == last {
            return false;
        }
        i += 1;
    }
    false
}

/// The position of the first `c` in `x`.
fn find_char(x: &Vec<char>, c: char) -> (r: Option<usize>)
    ensures
        match r {
            Some(i) => first_index(x@, c) == Some(i as int),
            None => first_index(x@, c) is None,
        },
{
    for i in 0..x.len()
        invariant
            forall|j: int| 0 <= j < i ==> x@[j] != c,
    {
        if x[i] == c {
            proof {
                lemma_first_index_at(x@, c, i as int);
            }
            return Some(i);
        }
    }
    proof {
        lemma_first_index(x@, c);
    }
    None
}

/// The position of the last `c` in `x`.
fn rfind_char(x: &Vec<char>, c: char) -> (r: Option<usize>)
    ensures
        match r {
            Some(i) => last_index(x@, c) == Some(i as int),
            None => last_index(x@, c) is None,
        },
{
    let mut i: usize = x.len();
    while i > 0
        invariant
            i <= x@.len(),
            forall|j: int| i <= j < x@.len() ==> x@[j] != c,
        decreases i,
    {
        i -= 1;
        if x[i] == c {
            proof {
                lemma_last_index_at(x@, c, i as int);
            }
            return Some(i);
        }
    }
    proof {
        lemma_last_index(x@, c);
    }
    None
}

/// The parts of `s` around its first `c`.
pub fn split_once<'a>(s: &'a str, c: char) -> (r: Option<(&'a str, &'a str)>)
    ensures
        match r {
            Some((head, tail)) => split_first(s@, c) == Some((head@, tail@)),
            None => split_first(s@, c) is None,
        },
{
    let x = char_vec(s);
    match find_char(&x, c) {
        Some(i) => {
            proof {
                lemma_first_index(s@, c);
            }
            let head = s.substring_char(0, i);
            let tail = s.substring_char(i + 1, x.len());
            assert(head@ =~= s@.take(i as int));
            assert(tail@ =~= s@.skip(i + 1));
            Some((head, tail))
        },
        None => None,
    }
}

/// The parts of `s` around its last `c`.
pub fn rsplit_once<'a>(s: &'a str, c: char) -> (r: Option<(&'a str, &'a str)>)
    ensures
        match r {
            Some((head, tail)) => split_last(s@, c) == Some((head@, tail@)),
            None => split_last(s@, c) is None,
        },
{
    let x = char_vec(s);
    match rfind_char(&x, c) {
        Some(i) => {
            proof {
                lemma_last_index(s@, c);
            }
            let head = s.substring_char(0, i);
            let tail = s.substring_char(i + 1, x.len());
            assert(head@ =~= s@.take(i as int));
            assert(tail@ =~= s@.skip(i + 1));
            Some((head, tail))
        },
        None => None,
    }
}

/// The pieces of `s` between its occurrences of `c`.
pub fn split(s: &str, c: char) -> (r: Vec<String>)
    ensures
        texts(r@) == pieces(s@, c),
{
    let x = char_vec(s);
    let mut out: Vec<String> = Vec::new();
    let mut start: usize = 0;
    let mut i: usize = 0;
    proof {
        assert(s@.take(0) =~= Seq::<char>::empty());
        assert(texts(out@) =~= pieces(s@.take(0), c).drop_last());
        assert(s@.subrange(0, 0) =~= Seq::<char>::empty());
    }
    while i < x.len()
        invariant
            x@ == s@,
            0 <= start <= i <= x@.len(),
            pieces(s@.take(i as int), c).len() >= 1,
            texts(out@) == pieces(s@.take(i as int), c).drop_last(),
            pieces(s@.take(i as int), c).last() == s@.subrange(start as int, i as int),
        decreases x@.len() - i,
    {
        let ghost before = s@.take(i as int);
        let ghost done = out@;
        proof {
            assert(s@.take(i + 1).drop_last() =~= before);
            assert(s@.take(i + 1).last() == s@[i as int]);
        }
        if x[i] == c {
            let piece = s.substring_char(start, i).to_owned();
            out.push(piece);
            start = i + 1;
            proof {
                assert(pieces(s@.take(i + 1), c) == pieces(before, c).push(Seq::<char>::empty()));
                assert(texts(out@) =~= texts(done).push(piece@));
                assert(pieces(before, c) =~= pieces(before, c).drop_last().push(
                    pieces(before, c).last(),
                ));
                assert(texts(out@) =~= pieces(s@.take(i + 1), c).drop_last());
                assert(s@.subrange(start as int, i + 1) =~= Seq::<char>::empty());
            }
        } else {
            proof {
                assert(s@.subrange(start as int, i + 1) =~= s@.subrange(start as int, i as int).push(
                    s@[i as int],
                ));
                assert(pieces(s@.take(i + 1), c).drop_last() =~= pieces(before, c).drop_last());
            }
        }
        i += 1;
    }
    let ghost done = out@;
    let piece = s.substring_char(start, x.len()).to_owned();
    out.push(piece);
    proof {
        assert(s@.take(x@.len() as int) =~= s@);
        assert(texts(out@) =~= texts(done).push(piece@));
        assert(pieces(s@, c) =~= pieces(s@, c).drop_last().push(pieces(s@, c).last()));
    }
    out
}

/// Whether `c` is white space.
pub fn is_whitespace(c: char) -> (r: bool)
    ensures
        r == is_space(c),
{
    let n: u32 = c as u32;
    (0x9 <= n && n <= 0xd) || n == 0x20 || n == 0x85 || n == 0xa0 || n == 0x1680 || (0x2000 <= n
        && n <= 0x200a) || n == 0x2028 || n == 0x2029 || n == 0x202f || n == 0x205f || n == 0x3000
}

/// Whether `c` is a control character.
pub fn is_control(c: char) -> (r: bool)
    ensures
        r == is_control_char(c),
{
    let n: u32 = c as u32;
    n <= 0x1f || (0x7f <= n && n <= 0x9f)
}

/// `s` without white space around it.
pub fn trim<'a>(s: &'a str) -> (r: &'a str)
    ensures
        r@ == trimmed(s@),
{
    let x = char_vec(s);
    let mut from: usize = 0;
    while from < x.len() && is_whitespace(x[from])
        invariant
            x@ == s@,
            from <= x@.len(),
            forall|j: int| 0 <= j < from ==> is_space(x@[j]),
        decreases x@.len() - from,
    {
        from += 1;
    }
    let ghost space = |c: char| is_space(c);
    proof {
        lemma_trimmed_start(s@, space, from as int);
    }
    let mut to: usize = x.len();
    while to > from && is_whitespace(x[to - 1])
        invariant
            x@ == s@,
            from <= to <= x@.len(),
            forall|j: int| to <= j < x@.len() ==> is_space(x@[j]),
        decreases to,
    {
        to -= 1;
    }
    proof {
        let rest = s@.skip(from as int);
        assert forall|j: int| to - from <= j < rest.len() implies space(#[trigger] rest[j]) by {
            assert(rest[j] == x@[from + j]);
        }
        lemma_trimmed_end(rest, space, to - from);
        assert(rest.take(to - from) =~= s@.subrange(from as int, to as int));
    }
    s.substring_char(from, to)
}

/// `s` without the `c` around it.
pub fn trim_matches<'a>(s: &'a str, c: char) -> (r: &'a str)
    ensures
        r@ == trimmed_of(s@, c),
{
    let x = char_vec(s);
    let mut from: usize = 0;
    while from < x.len() && x[from] == c
        invariant
            x@ == s@,
            from <= x@.len(),
            forall|j: int| 0 <= j < from ==> x@[j] == c,
        decreases x@.len() - from,
    {
        from += 1;
    }
    let ghost same_char = equals(c);
    proof {
        lemma_trimmed_start(s@, same_char, from as int);
    }
    let mut to: usize = x.len();
    while to > from && x[to - 1] == c
        invariant
            x@ == s@,
            from <= to <= x@.len(),
            forall|j: int| to <= j < x@.len() ==> x@[j] == c,
        decreases to,
    {
        to -= 1;
    }
    proof {
        let rest = s@.skip(from as int);
        assert forall|j: int| to - from <= j < rest.len() implies same_char(#[trigger] rest[j]) by {
            assert(rest[j] == x@[from + j]);
        }
        lemma_trimmed_end(rest, same_char, to - from);
        assert(rest.take(to - from) =~= s@.subrange(from as int, to as int));
    }
    s.substring_char(from, to)
}

/// The words of `s`.
pub fn split_whitespace(s: &str) -> (r: Vec<String>)
    ensures
        texts(r@) == words(s@),
{
    let x = char_vec(s);
    let mut out: Vec<String> = Vec::new();
    let mut start: usize = 0;
    let mut i: usize = 0;
    proof {
        assert(s@.take(0) =~= Seq::<char>::empty());
        assert(texts(out@) =~= words(s@.take(0)));
    }
    while i < x.len()
        invariant
            x@ == s@,
            0 <= start <= i <= x@.len(),
            start == i <==> (i == 0 || is_space(s@[i - 1])),
            start == i ==> words(s@.take(i as int)) == texts(out@),
            start < i ==> words(s@.take(i as int)) == texts(out@).push(
                s@.subrange(start as int, i as int),
            ),
        decreases x@.len() - i,
    {
        let ghost done = texts(out@);
        proof {
            assert(s@.take(i + 1).drop_last() =~= s@.take(i as int));
            assert(s@.take(i + 1).last() == s@[i as int]);
            if i > 0 {
                assert(s@.take(i + 1)[i - 1] == s@[i - 1]);
            }
        }
        if is_whitespace(x[i]) {
            if start < i {
                let word = s.substring_char(start, i).to_owned();
                out.push(word);
                assert(texts(out@) =~= done.push(word@));
            }
            start = i + 1;
        } else {
            proof {
                if start < i {
                    let init = words(s@.take(i as int));
                    assert(init.drop_last() =~= done);
                    assert(s@.subrange(start as int, i + 1) =~= s@.subrange(
                        start as int,
                        i as int,
                    ).push(s@[i as int]));
                } else {
                    assert(s@.subrange(start as int, i + 1) =~= seq![s@[i as int]]);
                }
            }
        }
        i += 1;
    }
    proof {
        assert(s@.take(x@.len() as int) =~= s@);
    }
    if start < x.len() {
        let ghost done = texts(out@);
        let word = s.substring_char(start, x.len()).to_owned();
        out.push(word);
        assert(texts(out@) =~= done.push(word@));
    }
    out
}

/// The strings of `parts` with `sep` between each two.
pub fn join(parts: &Vec<String>, sep: &str) -> (r: String)
    ensures
        r@ == joined(texts(parts@), sep@),
{
    if parts.len() == 0 {
        return String::new();
    }
    let mut out = parts[0].clone();
    proof {
        assert(texts(parts@).take(1) =~= seq![parts@[0]@]);
    }
    for i in 1..parts.len()
        invariant
            parts@.len() >= 1,
            out@ == joined(texts(parts@).take(i as int), sep@),
    {
        proof {
            assert(texts(parts@).take(i + 1).drop_last() =~= texts(parts@).take(i as int));
        }
        out.append(sep);
        out.append(parts[i].as_str());
    }
    proof {
        assert(texts(parts@).take(parts@.len() as int) =~= texts(parts@));
    }
    out
}

/// The code point of `c`.
fn code_point(c: char) -> (r: u32)
    ensures
        r as int == c as int,
{
    c as u32
}

/// Whether `a` stands before `b` in code point order.
pub fn stands_before(a: &str, b: &str) -> (r: bool)
    ensures
        r == precedes(a@, b@),
{
    let x = char_vec(a);
    let y = char_vec(b);
    let mut i: usize = 0;
    proof {
        assert(a@.skip(0) =~= a@);
        assert(b@.skip(0) =~= b@);
    }
    while i < y.len()
        invariant
            x@ == a@,
            y@ == b@,
            i <= x@.len(),
            i <= y@.len(),
            precedes(a@, b@) == precedes(a@.skip(i as int), b@.skip(i as int)),
        decreases y@.len() - i,
    {
        if i >= x.len() {
            return true;
        }
        if x[i] != y[i] {
            return code_point(x[i]) < code_point(y[i]);
        }
        proof {
            assert(a@.skip(i as int).drop_first() =~= a@.skip(i + 1));
            assert(b@.skip(i as int).drop_first() =~= b@.skip(i + 1));
        }
        i += 1;
    }
    false
}

/// A copy of an optional string.
pub fn copy_maybe(s: &Option<String>) -> (r: Option<String>)
    ensures
        maybe_text(r) == maybe_text(*s),
{
    match s {
        Some(text) => Some(text.clone()),
        None => None,
    }
}

/// Appends copies of the strings of `more`.
pub fn extend_texts(list: &mut Vec<String>, more: &Vec<String>)
    ensures
        texts(final(list)@) == texts(old(list)@) + texts(more@),
{
    let ghost start = texts(list@);
    assert(texts(more@).take(0) =~= Seq::empty());
    assert(start + Seq::<Seq<char>>::empty() =~= start);
    for i in 0..more.len()
        invariant
            texts(list@) == start + texts(more@).take(i as int),
    {
        let ghost before = texts(list@);
        list.push(more[i].clone());
        assert(texts(list@) =~= before.push(more@[i as int]@));
        assert(texts(more@).take(i + 1) =~= texts(more@).take(i as int).push(more@[i as int]@));
        assert(texts(list@) =~= start + texts(more@).take(i + 1));
    }
    assert(texts(more@).take(more@.len() as int) =~= texts(more@));
}

/// The value of the first pair with the key.
pub fn lookup<'a>(env: &'a [(String, String)], key: &str) -> (r: Option<&'a str>)
    ensures
        match r {
            Some(value) => first_value(pair_texts(env@), key@) == Some(value@),
            None => first_value(pair_texts(env@), key@) is None,
        },
{
    let ghost e = pair_texts(env@);
    assert(e.skip(0) =~= e);
    let mut i: usize = 0;
    while i < env.len()
        invariant
            e == pair_texts(env@),
            i <= env@.len(),
            first_value(e, key@) == first_value(e.skip(i as int), key@),
        decreases env@.len() - i,
    {
        assert(e.skip(i as int).drop_first() =~= e.skip(i + 1));
        assert(e.skip(i as int)[0] == e[i as int]);
        if same(env[i].0.as_str(), key) {
            return Some(env[i].1.as_str());
        }
        i += 1;
    }
    None
}

/// No piece holds the separator: with [`law_pieces_join_back`], the pieces are
/// exactly what stands between the separators.
pub proof fn law_pieces_hold_no_separator(s: Seq<char>, c: char, k: int)
    requires
        0 <= k < pieces(s, c).len(),
    ensures
        !pieces(s, c)[k].contains(c),
    decreases s.len(),
{
    if s.len() > 0 {
        let init = pieces(s.drop_last(), c);
        law_pieces_join_back(s.drop_last(), c);
        if s.last() == c {
            if k < init.len() {
                law_pieces_hold_no_separator(s.drop_last(), c, k);
            }
        } else if k < init.len() - 1 {
            law_pieces_hold_no_separator(s.drop_last(), c, k);
        } else {
            law_pieces_hold_no_separator(s.drop_last(), c, init.len() - 1);
            let piece = init.last().push(s.last());
            if piece.contains(c) {
                let j = choose|j: int| 0 <= j < piece.len() && piece[j] == c;
                assert(init.last().contains(init.last()[j]));
            }
        }
    }
}

/// A text splits at its first separator, whatever follows it.
pub proof fn law_splits_at_the_first(head: Seq<char>, tail: Seq<char>, c: char)
    requires
        !head.contains(c),
    ensures
        split_first(head + seq![c] + tail, c) == Some((head, tail)),
        split_first(head, c) is None,
        c == '\n' ==> first_line(head + seq![c] + tail) == head && first_line(head) == head,
{
    let s = head + seq![c] + tail;
    assert forall|j: int| 0 <= j < head.len() implies s[j] != c by {
        assert(head.contains(head[j]));
    }
    lemma_first_index_at(s, c, head.len() as int);
    assert(s.take(head.len() as int) =~= head);
    assert(s.skip(head.len() as int + 1) =~= tail);
    lemma_first_index(head, c);
    if let Some(i) = first_index(head, c) {
        assert(head.contains(head[i]));
    }
}

/// A text splits at its last separator, whatever stands before it.
pub proof fn law_splits_at_the_last(head: Seq<char>, tail: Seq<char>, c: char)
    requires
        !tail.contains(c),
    ensures
        split_last(head + seq![c] + tail, c) == Some((head, tail)),
        split_last(tail, c) is None,
{
    lemma_split_last_joined(head, tail, c);
    lemma_last_index(tail, c);
    if let Some(i) = last_index(tail, c) {
        assert(tail.contains(tail[i]));
    }
}

/// Trimming takes off exactly the white space around a text.
pub proof fn law_trimming_takes_off_white_space(
    front: Seq<char>,
    core: Seq<char>,
    back: Seq<char>,
)
    requires
        forall|j: int| 0 <= j < front.len() ==> is_space(#[trigger] front[j]),
        forall|j: int| 0 <= j < back.len() ==> is_space(#[trigger] back[j]),
        core.len() > 0,
        !is_space(core[0]),
        !is_space(core.last()),
    ensures
        trimmed(front + core + back) == core,
{
    let s = front + core + back;
    let drop = |c: char| is_space(c);
    assert forall|j: int| 0 <= j < front.len() implies drop(#[trigger] s[j]) by {
        assert(s[j] == front[j]);
    }
    assert(s[front.len() as int] == core[0]);
    lemma_trimmed_start(s, drop, front.len() as int);
    let rest = s.skip(front.len() as int);
    assert(rest =~= core + back);
    assert forall|j: int| core.len() <= j < rest.len() implies drop(#[trigger] rest[j]) by {
        assert(rest[j] == back[j - core.len()]);
    }
    assert(rest[core.len() - 1] == core.last());
    lemma_trimmed_end(rest, drop, core.len() as int);
    assert(rest.take(core.len() as int) =~= core);
}

/// Nothing is left of white space.
pub proof fn law_white_space_trims_to_nothing(s: Seq<char>)
    requires
        forall|j: int| 0 <= j < s.len() ==> is_space(#[trigger] s[j]),
    ensures
        trimmed(s).len() == 0,
{
    lemma_trimmed_start(s, |c: char| is_space(c), s.len() as int);
}

/// Trimming a character takes off exactly its repetitions around a text.
pub proof fn law_trimming_a_character(front: nat, core: Seq<char>, back: nat, c: char)
    requires
        core.len() > 0,
        core[0] != c,
        core.last() != c,
    ensures
        trimmed_of(
            Seq::new(front, |i: int| c) + core + Seq::new(back, |i: int| c),
            c,
        ) == core,
{
    let a = Seq::new(front, |i: int| c);
    let b = Seq::new(back, |i: int| c);
    let s = a + core + b;
    let drop = equals(c);
    assert forall|j: int| 0 <= j < a.len() implies drop(#[trigger] s[j]) by {
        assert(s[j] == a[j]);
    }
    assert(s[a.len() as int] == core[0]);
    lemma_trimmed_start(s, drop, a.len() as int);
    let rest = s.skip(a.len() as int);
    assert(rest =~= core + b);
    assert forall|j: int| core.len() <= j < rest.len() implies drop(#[trigger] rest[j]) by {
        assert(rest[j] == b[j - core.len()]);
    }
    assert(rest[core.len() - 1] == core.last());
    lemma_trimmed_end(rest, drop, core.len() as int);
    assert(rest.take(core.len() as int) =~= core);
}

/// White space parts words: a text without any is one word, and the words of two
/// texts with white space between them are those of the one and of the other.
pub proof fn law_white_space_parts_words(a: Seq<char>, b: Seq<char>, c: char)
    requires
        is_space(c),
    ensures
        words(a.push(c) + b) == words(a) + words(b),
        words(Seq::empty()) == Seq::<Seq<char>>::empty(),
    decreases b.len(),
{
    let s = a.push(c) + b;
    if b.len() == 0 {
        assert(s =~= a.push(c));
        assert(s.drop_last() =~= a);
        assert(words(a) + words(b) =~= words(a));
    } else {
        law_white_space_parts_words(a, b.drop_last(), c);
        let init = a.push(c) + b.drop_last();
        assert(s.drop_last() =~= init);
        let x = words(a);
        let y = words(b.drop_last());
        if is_space(b.last()) {
        } else if b.len() == 1 {
            assert(s[s.len() - 2] == c);
            assert((x + y).push(seq![b.last()]) =~= x + y.push(seq![b.last()]));
        } else {
            assert(s[s.len() - 2] == b[b.len() - 2]);
            if is_space(b[b.len() - 2]) {
                assert((x + y).push(seq![b.last()]) =~= x + y.push(seq![b.last()]));
            } else {
                lemma_open_word(b.drop_last());
                let longer = y.last().push(b.last());
                assert((x + y).last() == y.last());
                assert((x + y).drop_last().push(longer) =~= x + y.drop_last().push(longer));
            }
        }
    }
}

/// A text that does not end in white space ends in a word.
proof fn lemma_open_word(s: Seq<char>)
    requires
        s.len() > 0,
        !is_space(s.last()),
    ensures
        words(s).len() > 0,
    decreases s.len(),
{
    if s.len() > 1 && !is_space(s[s.len() - 2]) {
        lemma_open_word(s.drop_last());
    }
}

/// A text without white space is one word.
pub proof fn law_solid_text_is_one_word(s: Seq<char>)
    requires
        s.len() > 0,
        forall|j: int| 0 <= j < s.len() ==> !is_space(#[trigger] s[j]),
    ensures
        words(s) == seq![s],
    decreases s.len(),
{
    let init = s.drop_last();
    assert(!is_space(s[s.len() - 1]));
    if s.len() > 1 {
        assert forall|j: int| 0 <= j < init.len() implies !is_space(#[trigger] init[j]) by {
            assert(init[j] == s[j]);
        }
        law_solid_text_is_one_word(init);
        assert(!is_space(s[s.len() - 2]));
        assert(words(s) =~= seq![init.push(s.last())]);
        assert(init.push(s.last()) =~= s);
    } else {
        assert(s =~= seq![s.last()]);
        assert(words(init) =~= Seq::<Seq<char>>::empty());
        assert(words(s) =~= seq![s]);
    }
}

/// White space and control characters of ASCII: blank, tab to carriage return;
/// everything below blank, and delete.
pub proof fn law_ascii_classes(c: char)
    requires
        (c as u32) < 0x80,
    ensures
        is_space(c) <==> c as u32 == 32 || 9 <= c as u32 <= 13,
        is_control_char(c) <==> (c as u32) < 32 || c as u32 == 127,
{
}

/// The order of names is decided by the first difference; a beginning comes
/// before what continues it.
pub proof fn law_first_difference_decides(
    common: Seq<char>,
    x: char,
    a: Seq<char>,
    y: char,
    b: Seq<char>,
)
    requires
        x != y,
    ensures
        precedes(common + seq![x] + a, common + seq![y] + b) <==> (x as int) < (y as int),
        precedes(common, common + seq![y] + b),
        !precedes(common + seq![y] + b, common),
        !precedes(common, common),
    decreases common.len(),
{
    let p = common + seq![x] + a;
    let q = common + seq![y] + b;
    if common.len() > 0 {
        law_first_difference_decides(common.drop_first(), x, a, y, b);
        assert(p.drop_first() =~= common.drop_first() + seq![x] + a);
        assert(q.drop_first() =~= common.drop_first() + seq![y] + b);
        assert(p[0] == common[0] && q[0] == common[0]);
    } else {
        assert(p[0] == x && q[0] == y);
    }
}

/// The first pair with a key gives its value, whatever follows.
pub proof fn law_first_pair_counts(env: Seq<(Seq<char>, Seq<char>)>, i: int)
    requires
        0 <= i < env.len(),
        forall|j: int| 0 <= j < i ==> (#[trigger] env[j]).0 != env[i].0,
    ensures
        first_value(env, env[i].0) == Some(env[i].1),
    decreases env.len(),
{
    if i > 0 {
        let rest = env.drop_first();
        assert(rest[i - 1] == env[i]);
        assert forall|j: int| 0 <= j < i - 1 implies (#[trigger] rest[j]).0 != rest[i - 1].0 by {
            assert(rest[j] == env[j + 1]);
        }
        law_first_pair_counts(rest, i - 1);
        assert(env[0].0 != env[i].0);
    }
}

/// A key that no pair has gives no value.
pub proof fn law_missing_key_has_no_value(env: Seq<(Seq<char>, Seq<char>)>, key: Seq<char>)
    requires
        forall|j: int| 0 <= j < env.len() ==> (#[trigger] env[j]).0 != key,
    ensures
        first_value(env, key) is None,
    decreases env.len(),
{
    if env.len() > 0 {
        let rest = env.drop_first();
        assert forall|j: int| 0 <= j < rest.len() implies (#[trigger] rest[j]).0 != key by {
            assert(rest[j] == env[j + 1]);
        }
        law_missing_key_has_no_value(rest, key);
        assert(env[0].0 != key);
    }
}

/// A prefix is taken off once, and nothing else is.
pub proof fn law_prefix_is_taken_off(prefix: Seq<char>, rest: Seq<char>)
    ensures
        has_prefix(prefix + rest, prefix),
        without_prefix(prefix + rest, prefix) == Some(rest),
        without_prefix(rest, prefix) matches Some(tail) ==> rest == prefix + tail,
{
    assert((prefix + rest).take(prefix.len() as int) =~= prefix);
    assert((prefix + rest).skip(prefix.len() as int) =~= rest);
    if has_prefix(rest, prefix) {
        assert(rest =~= rest.take(prefix.len() as int) + rest.skip(prefix.len() as int));
    }
}

/// Joining puts the separator between each two parts and nowhere else.
pub proof fn law_separator_stands_between(parts: Seq<Seq<char>>, part: Seq<char>, sep: Seq<char>)
    ensures
        joined(Seq::empty(), sep) == Seq::<char>::empty(),
        joined(seq![part], sep) == part,
        parts.len() > 0 ==> joined(parts.push(part), sep) == joined(parts, sep) + sep + part,
{
    assert(parts.push(part).drop_last() =~= parts);
}

/// A text occurs behind what stands before it, and where it occurs, the whole is
/// what stands before it, itself and what follows.
pub proof fn law_occurrence_parts_the_text(
    s: Seq<char>,
    needle: Seq<char>,
    before: Seq<char>,
    after: Seq<char>,
    i: int,
)
    ensures
        occurs_at(before + needle + after, needle, before.len() as int),
        occurs_at(s, needle, i) ==> s == s.take(i) + needle + s.skip(i + needle.len()) && i
            == s.take(i).len(),
{
    let whole = before + needle + after;
    let n = before.len() as int;
    assert(whole.subrange(n, n + needle.len()) =~= needle);
    if occurs_at(s, needle, i) {
        assert(s =~= s.take(i) + s.subrange(i, i + needle.len()) + s.skip(i + needle.len()));
    }
}

} // verus!
