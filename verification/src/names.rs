//! Table-name derivation: a capitalized multi-word identifier such as
//! `UserAccount` becomes the lower-case, underscore-separated table name
//! `user_account`.
//!
//! The transformation is byte-threshold based and ASCII-only: every
//! character whose code point lies below the one of `Z` counts as an
//! upper-case letter, is shifted down into the lower-case range, and —
//! except in the first position — is preceded by an underscore. Inputs
//! shorter than two characters are returned unchanged. The exact shape
//! of this mapping is fixed: generated table names must stay stable.

use vstd::prelude::*;

use crate::text::push_char;

verus! {

/// The code point threshold: characters strictly below it are treated
/// as upper-case and shifted by [`CASE_OFFSET`].
pub const UPPER_LIMIT: u32 = 90;

/// The distance between the upper-case and lower-case ASCII letters.
pub const CASE_OFFSET: u32 = 32;

/// The lower-case counterpart of an upper-case character: its code
/// point shifted up by the ASCII case offset.
pub open spec fn shifted_char(c: char) -> char {
    ((c as u32) + CASE_OFFSET) as char
}

/// How the first character of a multi-character name is rendered:
/// lower-cased when upper-case, otherwise unchanged.
pub open spec fn snake_first(c: char) -> Seq<char> {
    if (c as u32) < UPPER_LIMIT {
        seq![shifted_char(c)]
    } else {
        seq![c]
    }
}

/// How every later character is rendered: an underscore followed by
/// the lower-cased character when upper-case, otherwise unchanged.
pub open spec fn snake_rest_char(c: char) -> Seq<char> {
    if (c as u32) < UPPER_LIMIT {
        seq!['_', shifted_char(c)]
    } else {
        seq![c]
    }
}

/// The rendering of all characters after the first, concatenated.
pub open spec fn snake_rest(s: Seq<char>) -> Seq<char>
    decreases s.len(),
{
    if s.len() == 0 {
        Seq::empty()
    } else {
        snake_rest_char(s[0]) + snake_rest(s.drop_first())
    }
}

/// The derived table name: inputs of fewer than two characters pass
/// through unchanged; otherwise the first character is lower-cased
/// without a separator and every later upper-case character gains a
/// preceding underscore.
pub open spec fn spec_snake_case(s: Seq<char>) -> Seq<char> {
    if s.len() < 2 {
        s
    } else {
        snake_first(s[0]) + snake_rest(s.skip(1))
    }
}

/// Extending the input by one character extends the rendered tail by
/// that character's rendering.
pub proof fn lemma_snake_rest_push(s: Seq<char>, c: char)
    ensures
        snake_rest(s.push(c)) == snake_rest(s) + snake_rest_char(c),
    decreases s.len(),
{
    if s.len() == 0 {
        assert(s.push(c) =~= seq![c]);
        assert(s.push(c).drop_first() =~= Seq::<char>::empty());
        assert(snake_rest(s.push(c).drop_first()) == Seq::<char>::empty());
        assert(snake_rest(s.push(c)) == snake_rest_char(c) + snake_rest(s.push(c).drop_first()));
        assert(snake_rest(s.push(c)) =~= snake_rest(s) + snake_rest_char(c));
    } else {
        lemma_snake_rest_push(s.drop_first(), c);
        assert(s.push(c).drop_first() =~= s.drop_first().push(c));
        assert(snake_rest(s) + snake_rest_char(c) =~= snake_rest_char(s[0]) + (snake_rest(
            s.drop_first(),
        ) + snake_rest_char(c)));
    }
}

/// The derived table name of the given identifier.
pub fn pascal_case_to_snake_case(table_name: &String) -> (r: String)
    ensures
        r@ == spec_snake_case(table_name@),
{
    let word_size = table_name.as_str().unicode_len();

    if word_size < 2 {
        return table_name.clone();
    }

    let mut sk_table_name = String::new();

    let first = table_name.as_str().get_char(0);
    if (first as u32) < UPPER_LIMIT {
        push_lowered(&mut sk_table_name, first);
    } else {
        push_char(&mut sk_table_name, first);
    }
    assert(sk_table_name@ =~= snake_first(table_name@[0]));

    let mut counter: usize = 1;
    while counter < word_size
        invariant
            1 <= counter <= word_size,
            word_size == table_name@.len(),
            sk_table_name@ == snake_first(table_name@[0]) + snake_rest(
                table_name@.subrange(1, counter as int),
            ),
        decreases word_size - counter,
    {
        let current = table_name.as_str().get_char(counter);

        if (current as u32) < UPPER_LIMIT {
            push_char(&mut sk_table_name, '_');
            push_lowered(&mut sk_table_name, current);
        } else {
            push_char(&mut sk_table_name, current);
        }

        proof {
            lemma_snake_rest_push(table_name@.subrange(1, counter as int), table_name@[
                counter as int]);
            assert(table_name@.subrange(1, counter + 1 as int) =~= table_name@.subrange(
                1,
                counter as int,
            ).push(table_name@[counter as int]));
            assert(sk_table_name@ =~= snake_first(table_name@[0]) + snake_rest(
                table_name@.subrange(1, counter + 1 as int),
            ));
        }

        counter = counter + 1;
    }

    proof {
        assert(table_name@.subrange(1, word_size as int) =~= table_name@.skip(1));
    }

    sk_table_name
}

/// Appends the lower-cased counterpart of an upper-case character.
fn push_lowered(s: &mut String, c: char)
    requires
        (c as u32) < UPPER_LIMIT,
    ensures
        final(s)@ == old(s)@ + seq![shifted_char(c)],
{
    let code: u32 = (c as u32) + CASE_OFFSET;
    let lowered: char = (code as u8) as char;
    assert(lowered == shifted_char(c));
    push_char(s, lowered);
}

/// Every character the derivation emits for a tail character whose code
/// is at least the case offset below the threshold lies at or above the
/// threshold, so a second pass leaves it alone.
proof fn lemma_snake_rest_settled(s: Seq<char>)
    requires
        forall|i: int| 0 <= i < s.len() ==> (#[trigger] s[i] as u32) + CASE_OFFSET >= UPPER_LIMIT,
    ensures
        forall|i: int|
            0 <= i < snake_rest(s).len() ==> (#[trigger] snake_rest(s)[i] as u32) >= UPPER_LIMIT,
    decreases s.len(),
{
    if s.len() > 0 {
        lemma_snake_rest_settled(s.drop_first());
        assert forall|i: int| 0 <= i < snake_rest(s).len() implies (#[trigger] snake_rest(
            s,
        )[i] as u32) >= UPPER_LIMIT by {
            let head = snake_rest_char(s[0]);
            if i < head.len() {
                assert(head[i] == snake_rest(s)[i]);
                assert(('_' as u32) >= UPPER_LIMIT);
            } else {
                assert(snake_rest(s)[i] == snake_rest(s.drop_first())[i - head.len()]);
            }
        }
    }
}

/// Characters at or above the threshold pass through the tail rendering
/// unchanged.
proof fn lemma_snake_rest_identity(s: Seq<char>)
    requires
        forall|i: int| 0 <= i < s.len() ==> (#[trigger] s[i] as u32) >= UPPER_LIMIT,
    ensures
        snake_rest(s) == s,
    decreases s.len(),
{
    if s.len() == 0 {
        assert(snake_rest(s) =~= s);
    } else {
        lemma_snake_rest_identity(s.drop_first());
        assert(snake_rest(s) =~= seq![s[0]] + s.drop_first());
        assert(seq![s[0]] + s.drop_first() =~= s);
    }
}

/// An already-lower-case name — every character at or above the
/// threshold, as in the derivation's own output — is a fixed point of
/// the derivation.
pub proof fn lemma_snake_case_fixed_on_lower(s: Seq<char>)
    requires
        forall|i: int| 0 <= i < s.len() ==> (#[trigger] s[i] as u32) >= UPPER_LIMIT,
    ensures
        spec_snake_case(s) == s,
{
    if s.len() >= 2 {
        lemma_snake_rest_identity(s.skip(1));
        assert(spec_snake_case(s) =~= seq![s[0]] + s.skip(1));
        assert(seq![s[0]] + s.skip(1) =~= s);
    }
}

/// The derivation is stable under re-application: deriving a second
/// time changes nothing, for any name whose characters lie at or above
/// code point 58 — as the letters and the underscore of an identifier
/// do. (A character below that bound, such as a digit, is shifted to a
/// code point that still counts as upper-case, so a second pass would
/// rewrite it again.)
pub proof fn lemma_snake_case_idempotent(s: Seq<char>)
    requires
        forall|i: int| 0 <= i < s.len() ==> (#[trigger] s[i] as u32) + CASE_OFFSET >= UPPER_LIMIT,
    ensures
        spec_snake_case(spec_snake_case(s)) == spec_snake_case(s),
{
    let t = spec_snake_case(s);
    if s.len() < 2 {
        assert(t == s);
    } else {
        lemma_snake_rest_settled(s.skip(1));
        assert forall|i: int| 0 <= i < t.len() implies (#[trigger] t[i] as u32)
            >= UPPER_LIMIT by {
            let head = snake_first(s[0]);
            if i < head.len() {
                assert(t[i] == head[i]);
            } else {
                assert(t[i] == snake_rest(s.skip(1))[i - head.len()]);
            }
        }
        lemma_snake_case_fixed_on_lower(t);
    }
}

} // verus!
