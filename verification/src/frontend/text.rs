//! Paths written with `::` between their parts.

use vstd::prelude::*;
use vstd::string::StrSliceExecFns;
use vstd::string::StringExecFns;

verus! {

/// The separator of the parts of a path: two colons.
pub open spec fn separator() -> Seq<char> {
    seq![':', ':']
}

/// Whether the separator stands at position `i` of the text.
pub open spec fn separator_at(s: Seq<char>, i: int) -> bool {
    0 <= i && i + 1 < s.len() && s[i] == ':' && s[i + 1] == ':'
}

/// The first position from `from` on at which the separator stands, or the length of the
/// text where it stands nowhere.
pub open spec fn next_separator(s: Seq<char>, from: int) -> int
    decreases s.len() - from,
{
    if from < 0 || from + 1 >= s.len() {
        s.len() as int
    } else if separator_at(s, from) {
        from
    } else {
        next_separator(s, from + 1)
    }
}

/// Whether the separator stands anywhere in the text.
pub open spec fn has_separator(s: Seq<char>) -> bool {
    next_separator(s, 0) < s.len()
}

/// The parts of the text from `from` on: what stands between one separator and the next,
/// reading from the left, so that three colons end a part and leave one colon to the next.
pub open spec fn parts_from(s: Seq<char>, from: int) -> Seq<Seq<char>>
    decreases s.len() - from,
{
    let i = next_separator(s, from);
    if from < 0 || i < from || i + 2 > s.len() {
        seq![s.subrange(from, s.len() as int)]
    } else {
        seq![s.subrange(from, i)] + parts_from(s, i + 2)
    }
}

/// The parts of a path: a text without separator is one part, the empty text too.
pub open spec fn parts_of(s: Seq<char>) -> Seq<Seq<char>> {
    parts_from(s, 0)
}

/// The parts written one after the other with the separator between them.
pub open spec fn joined(parts: Seq<Seq<char>>) -> Seq<char>
    decreases parts.len(),
{
    if parts.len() == 0 {
        Seq::empty()
    } else if parts.len() == 1 {
        parts[0]
    } else {
        joined(parts.drop_last()) + separator() + parts.last()
    }
}

/// The texts of a list of strings.
pub open spec fn texts(strings: Seq<String>) -> Seq<Seq<char>> {
    strings.map_values(|s: String| s@)
}

/// Where the next separator is found, there it stands, and not before.
pub proof fn lemma_next_separator(s: Seq<char>, from: int)
    requires
        0 <= from <= s.len(),
    ensures
        from <= next_separator(s, from) <= s.len(),
        next_separator(s, from) < s.len() ==> separator_at(s, next_separator(s, from)),
        forall|i: int| from <= i < next_separator(s, from) ==> !separator_at(s, i),
    decreases s.len() - from,
{
    if from + 1 < s.len() && !separator_at(s, from) {
        lemma_next_separator(s, from + 1);
    }
}

proof fn lemma_joined_after_first(first: Seq<char>, rest: Seq<Seq<char>>)
    requires
        rest.len() >= 1,
    ensures
        joined(seq![first] + rest) == first + separator() + joined(rest),
    decreases rest.len(),
{
    let all = seq![first] + rest;
    assert(all.last() == rest.last());
    if rest.len() == 1 {
        assert(all.drop_last() == seq![first]);
        assert(joined(seq![first]) == first);
        assert(joined(rest) == rest[0]);
        assert(joined(all) == joined(all.drop_last()) + separator() + all.last());
    } else {
        assert(joined(all) == joined(all.drop_last()) + separator() + all.last());
        assert(joined(rest) == joined(rest.drop_last()) + separator() + rest.last());
        assert(all.drop_last() == seq![first] + rest.drop_last());
        lemma_joined_after_first(first, rest.drop_last());
        assert(joined(all) == (first + separator() + joined(rest.drop_last())) + separator()
            + rest.last());
        assert(joined(all) == first + separator() + (joined(rest.drop_last()) + separator()
            + rest.last()));
    }
}

proof fn lemma_parts_join(s: Seq<char>, from: int)
    requires
        0 <= from <= s.len(),
    ensures
        parts_from(s, from).len() >= 1,
        joined(parts_from(s, from)) == s.subrange(from, s.len() as int),
    decreases s.len() - from,
{
    let i = next_separator(s, from);
    lemma_next_separator(s, from);
    if i + 2 <= s.len() {
        lemma_parts_join(s, i + 2);
        lemma_joined_after_first(s.subrange(from, i), parts_from(s, i + 2));
        assert(s.subrange(from, i) + separator() + s.subrange(i + 2, s.len() as int)
            == s.subrange(from, s.len() as int));
    }
}

/// A path is its parts with the separator between them.
pub proof fn lemma_joined_parts(s: Seq<char>)
    ensures
        joined(parts_of(s)) == s,
{
    lemma_parts_join(s, 0);
    assert(s.subrange(0, s.len() as int) == s);
}

/// The characters of the text.
pub fn chars_of(s: &str) -> (chars: Vec<char>)
    ensures
        chars@ == s@,
{
    let mut chars: Vec<char> = Vec::new();
    for c in it: s.chars()
        invariant
            chars@ == it.seq().take(it.index() as int),
            it.seq() == s@,
    {
        chars.push(c);
    }
    chars
}

/// Whether the path has more than one part: whether `::` stands anywhere in it.
pub fn contains_separator(s: &str) -> (found: bool)
    ensures
        found == has_separator(s@),
        found <==> exists|i: int| separator_at(s@, i),
{
    let chars = chars_of(s);
    let mut i: usize = 0;
    proof {
        lemma_next_separator(s@, 0);
        if has_separator(s@) {
            assert(separator_at(s@, next_separator(s@, 0)));
        }
    }
    while chars.len() - i >= 2
        invariant
            chars@ == s@,
            i <= chars.len(),
            next_separator(s@, 0) == next_separator(s@, i as int),
        decreases chars.len() - i,
    {
        if chars[i] == ':' && chars[i + 1] == ':' {
            return true;
        }
        i += 1;
    }
    false
}

/// The parts of the path, each as a string of its own.
pub fn split_path(s: &str) -> (parts: Vec<String>)
    ensures
        texts(parts@) == parts_of(s@),
{
    let chars = chars_of(s);
    let n = chars.len();
    let mut parts: Vec<String> = Vec::new();
    let mut start: usize = 0;
    let mut i: usize = 0;
    proof {
        assert(texts(parts@) == Seq::<Seq<char>>::empty());
    }
    while n - i >= 2
        invariant
            chars@ == s@,
            n == chars.len(),
            start <= i <= n,
            texts(parts@) + parts_from(s@, start as int) == parts_of(s@),
            next_separator(s@, start as int) == next_separator(s@, i as int),
        decreases n - i,
    {
        if chars[i] == ':' && chars[i + 1] == ':' {
            let part = String::from_str(s.substring_char(start, i));
            let ghost before = parts@;
            parts.push(part);
            proof {
                assert(texts(parts@) == texts(before).push(s@.subrange(start as int, i as int)));
                assert(texts(parts@) + parts_from(s@, i + 2) == texts(before) + (seq![
                    s@.subrange(start as int, i as int),
                ] + parts_from(s@, i + 2)));
            }
            start = i + 2;
            i = i + 2;
        } else {
            i += 1;
        }
    }
    let part = String::from_str(s.substring_char(start, n));
    let ghost before = parts@;
    parts.push(part);
    proof {
        assert(texts(parts@) == texts(before).push(s@.subrange(start as int, n as int)));
        assert(next_separator(s@, i as int) == s@.len());
    }
    parts
}

/// The parts written one after the other with `::` between them.
pub fn join_path(parts: &Vec<String>) -> (path: String)
    ensures
        path@ == joined(texts(parts@)),
{
    let mut path = String::new();
    let mut i: usize = 0;
    proof {
        reveal_strlit("::");
        assert(texts(parts@).take(0) == Seq::<Seq<char>>::empty());
    }
    while i < parts.len()
        invariant
            i <= parts.len(),
            "::"@ == separator(),
            path@ == joined(texts(parts@).take(i as int)),
        decreases parts.len() - i,
    {
        proof {
            let now = texts(parts@).take(i + 1);
            assert(now.drop_last() == texts(parts@).take(i as int));
            assert(now.last() == parts@[i as int]@);
            if i == 0 {
                assert(now.len() == 1);
                assert(Seq::<char>::empty() + parts@[0]@ == parts@[0]@);
            }
        }
        if i > 0 {
            path.append("::");
        }
        path.append(parts[i].as_str());
        i += 1;
    }
    proof {
        assert(texts(parts@).take(parts@.len() as int) == texts(parts@));
    }
    path
}

/// How two texts stand to each other in the order of strings.
#[derive(Debug, PartialEq, Eq, Copy, Clone, Structural)]
pub enum Order {
    Before,
    Same,
    After,
}

/// Whether `a` comes before `b` in the order of strings: at the first place where they
/// differ `a` has the smaller character, or `a` ends there and `b` goes on.
pub open spec fn text_lt(a: Seq<char>, b: Seq<char>) -> bool
    decreases a.len(),
{
    if b.len() == 0 {
        false
    } else if a.len() == 0 {
        true
    } else if a[0] != b[0] {
        (a[0] as u32) < (b[0] as u32)
    } else {
        text_lt(a.drop_first(), b.drop_first())
    }
}

/// Two characters with the same code are the same character.
proof fn lemma_char_code(x: char, y: char)
    requires
        (x as u32) == (y as u32),
    ensures
        x == y,
{
    vstd::utf8::char_u32_cast(x, x as u32);
    vstd::utf8::char_u32_cast(y, y as u32);
}

/// Of two texts one comes before the other, or they are the same.
pub proof fn lemma_text_order_total(a: Seq<char>, b: Seq<char>)
    ensures
        text_lt(a, b) || a == b || text_lt(b, a),
        !(text_lt(a, b) && text_lt(b, a)),
        !text_lt(a, a),
    decreases a.len(),
{
    if a.len() > 0 && b.len() > 0 {
        lemma_text_order_total(a.drop_first(), b.drop_first());
        if a[0] == b[0] {
            if a.drop_first() == b.drop_first() {
                assert(a.len() == b.len());
                assert forall|i: int| 0 <= i < a.len() implies a[i] == b[i] by {
                    if i > 0 {
                        assert(a[i] == a.drop_first()[i - 1]);
                        assert(b[i] == b.drop_first()[i - 1]);
                    }
                }
                assert(a =~= b);
            }
        } else {
            if (a[0] as u32) == (b[0] as u32) {
                lemma_char_code(a[0], b[0]);
            }
        }
    } else if a.len() == 0 && b.len() == 0 {
        assert(a =~= b);
    }
    if a.len() > 0 {
        lemma_text_order_total(a.drop_first(), a.drop_first());
    }
}

/// What comes before a text comes before everything that the text comes before.
pub proof fn lemma_text_order_transitive(a: Seq<char>, b: Seq<char>, c: Seq<char>)
    requires
        text_lt(a, b),
        text_lt(b, c),
    ensures
        text_lt(a, c),
    decreases a.len(),
{
    if a.len() > 0 && b.len() > 0 && c.len() > 0 {
        if a[0] == b[0] && b[0] == c[0] {
            lemma_text_order_transitive(a.drop_first(), b.drop_first(), c.drop_first());
        }
    }
}

/// Where the first text stands to the second in the order of strings.
pub fn compare_texts(a: &str, b: &str) -> (order: Order)
    ensures
        order == Order::Before <==> text_lt(a@, b@),
        order == Order::Same <==> a@ == b@,
        order == Order::After <==> text_lt(b@, a@),
{
    let x = chars_of(a);
    let y = chars_of(b);
    let mut i: usize = 0;
    proof {
        lemma_text_order_total(a@, b@);
        assert(a@.skip(0) == a@);
        assert(b@.skip(0) == b@);
    }
    while i < x.len() && i < y.len()
        invariant
            x@ == a@,
            y@ == b@,
            i <= x.len(),
            i <= y.len(),
            a@.take(i as int) == b@.take(i as int),
            text_lt(a@, b@) == text_lt(a@.skip(i as int), b@.skip(i as int)),
            text_lt(b@, a@) == text_lt(b@.skip(i as int), a@.skip(i as int)),
        decreases x.len() - i,
    {
        proof {
            assert(a@.skip(i as int).drop_first() == a@.skip(i + 1));
            assert(b@.skip(i as int).drop_first() == b@.skip(i + 1));
            assert(a@.skip(i as int)[0] == a@[i as int]);
            assert(b@.skip(i as int)[0] == b@[i as int]);
        }
        if x[i] != y[i] {
            if (x[i] as u32) < (y[i] as u32) {
                return Order::Before;
            } else {
                proof {
                    if (x@[i as int] as u32) == (y@[i as int] as u32) {
                        lemma_char_code(x@[i as int], y@[i as int]);
                    }
                }
                return Order::After;
            }
        }
        proof {
            assert(a@.take(i + 1) == a@.take(i as int).push(a@[i as int]));
            assert(b@.take(i + 1) == b@.take(i as int).push(b@[i as int]));
        }
        i += 1;
    }
    proof {
        lemma_text_order_total(a@, b@);
        if i == x.len() && i == y.len() {
            assert(a@.take(i as int) == a@);
            assert(b@.take(i as int) == b@);
        }
    }
    if i < y.len() {
        Order::Before
    } else if i < x.len() {
        Order::After
    } else {
        Order::Same
    }
}

} // verus!
