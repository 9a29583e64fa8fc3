//! What `LIKE` matches, and why a `CONTAINS` clause finds exactly the texts that contain its value.
//!
//! Nothing here runs: the matching is the database's. [`matches`] says what SQL's
//! `text LIKE pattern ESCAPE '\'` is, without regard to the case of ASCII letters.
use crate::executor;
use crate::text;
use vstd::prelude::*;

verus! {

/// Whether a text matches a pattern: `%` stands for any characters, `_` for any one character, the
/// character after a `\` for itself, and any other character for itself.
pub open spec fn matches(pattern: Seq<char>, t: Seq<char>) -> bool
    decreases pattern.len(), t.len(),
{
    if pattern.len() == 0 {
        t.len() == 0
    } else if pattern[0] == '%' {
        matches(pattern.skip(1), t) || (t.len() > 0 && matches(pattern, t.skip(1)))
    } else if pattern[0] == '_' {
        t.len() > 0 && matches(pattern.skip(1), t.skip(1))
    } else if pattern[0] == '\\' && pattern.len() > 1 {
        t.len() > 0 && text::lower(pattern[1]) == text::lower(t[0]) && matches(
            pattern.skip(2),
            t.skip(1),
        )
    } else {
        t.len() > 0 && text::lower(pattern[0]) == text::lower(t[0]) && matches(
            pattern.skip(1),
            t.skip(1),
        )
    }
}

/// Whether `s` stands in `t` at `i`, without regard to the case of ASCII letters.
pub open spec fn stands_at(s: Seq<char>, t: Seq<char>, i: int) -> bool {
    &&& 0 <= i <= t.len() - s.len()
    &&& text::folded(t.subrange(i, i + s.len())) == text::folded(s)
}

/// Whether `t` contains `s`, without regard to the case of ASCII letters.
pub open spec fn contains(t: Seq<char>, s: Seq<char>) -> bool {
    exists|i: int| #[trigger] stands_at(s, t, i)
}

proof fn percent_matches_all(t: Seq<char>)
    ensures
        matches(seq!['%'], t),
    decreases t.len(),
{
    let rest = seq!['%'].skip(1);
    if t.len() > 0 {
        percent_matches_all(t.skip(1));
    } else {
        assert(matches(rest, t));
    }
}

proof fn escaped_front(s: Seq<char>)
    requires
        s.len() > 0,
    ensures
        executor::escaped(s) == (if executor::like_special(s[0]) {
            seq!['\\', s[0]]
        } else {
            seq![s[0]]
        }) + executor::escaped(s.skip(1)),
    decreases s.len(),
{
    if s.len() == 1 {
        assert(executor::escaped(s.drop_last()) == Seq::<char>::empty());
    } else {
        escaped_front(s.drop_last());
        assert(s.drop_last().skip(1) == s.skip(1).drop_last());
    }
}

/// An escaped text, with anything after it, matches the texts that begin with it.
proof fn escaped_matches_prefix(s: Seq<char>, t: Seq<char>)
    ensures
        matches(executor::escaped(s) + seq!['%'], t) <==> stands_at(s, t, 0),
    decreases s.len(),
{
    let pattern = executor::escaped(s) + seq!['%'];
    if s.len() == 0 {
        percent_matches_all(t);
        assert(text::folded(t.subrange(0, 0)) == text::folded(s));
    } else {
        escaped_front(s);
        let rest = executor::escaped(s.skip(1)) + seq!['%'];
        if executor::like_special(s[0]) {
            assert(pattern.skip(2) == rest);
        } else {
            assert(pattern.skip(1) == rest);
        }
        if t.len() > 0 {
            escaped_matches_prefix(s.skip(1), t.skip(1));
            if s.len() <= t.len() {
                let head = t.subrange(0, s.len() as int);
                let tail = t.skip(1).subrange(0, s.skip(1).len() as int);
                assert(text::folded(tail) == text::folded(head).skip(1));
                assert(text::folded(s.skip(1)) == text::folded(s).skip(1));
                assert(text::folded(head) == seq![text::lower(t[0])] + text::folded(tail));
                assert(text::folded(s) == seq![text::lower(s[0])] + text::folded(s.skip(1)));
                if text::folded(head) == text::folded(s) {
                    assert(text::folded(s)[0] == text::lower(s[0]));
                }
            }
        }
    }
}

/// A pattern behind a `%` matches where it matches what is left of the text somewhere.
proof fn percent_skips(s: Seq<char>, t: Seq<char>)
    ensures
        matches(seq!['%'] + executor::escaped(s) + seq!['%'], t) <==> contains(t, s),
    decreases t.len(),
{
    let rest = executor::escaped(s) + seq!['%'];
    let pattern = seq!['%'] + executor::escaped(s) + seq!['%'];
    assert(pattern.skip(1) == rest);
    escaped_matches_prefix(s, t);
    if t.len() > 0 {
        percent_skips(s, t.skip(1));
        assert forall|i: int| stands_at(s, t.skip(1), i) implies stands_at(s, t, i + 1) by {
            assert(t.skip(1).subrange(i, i + s.len()) == t.subrange(i + 1, i + 1 + s.len()));
        }
        assert forall|i: int| i > 0 && stands_at(s, t, i) implies stands_at(
            s,
            t.skip(1),
            i - 1,
        ) by {
            assert(t.skip(1).subrange(i - 1, i - 1 + s.len()) == t.subrange(i, i + s.len()));
        }
    }
}

/// A `CONTAINS` clause matches the texts that contain its value, without regard to the case of
/// ASCII letters, and no others: no character of the value is taken for a wildcard.
pub proof fn contains_clause_is_literal(value: Seq<char>, t: Seq<char>)
    ensures
        matches(executor::containing(value), t) <==> contains(t, value),
{
    reveal_strlit("%");
    assert("%"@ == seq!['%']);
    percent_skips(value, t);
}

} // verus!
