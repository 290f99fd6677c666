//! String-building primitives shared by the statement generators:
//! joining string sequences with a separator, replacing a pattern,
//! ASCII upper-casing, and counting characters.

use vstd::prelude::*;

verus! {

/// Relies on String::push: appends exactly one character to the string.
#[verifier::external_body]
pub(crate) fn push_char(s: &mut String, c: char)
    ensures
        final(s)@ == old(s)@ + seq![c],
{
    s.push(c);
}

/// The parts joined with the separator between consecutive parts.
pub open spec fn spec_join(parts: Seq<Seq<char>>, sep: Seq<char>) -> Seq<char>
    decreases parts.len(),
{
    if parts.len() == 0 {
        Seq::empty()
    } else if parts.len() == 1 {
        parts[0]
    } else {
        parts[0] + sep + spec_join(parts.drop_first(), sep)
    }
}

/// Appending one more part extends a join by the separator and that part.
pub proof fn lemma_join_push(parts: Seq<Seq<char>>, sep: Seq<char>, part: Seq<char>)
    ensures
        parts.len() == 0 ==> spec_join(parts.push(part), sep) == part,
        parts.len() > 0 ==> spec_join(parts.push(part), sep) == spec_join(parts, sep) + sep
            + part,
    decreases parts.len(),
{
    if parts.len() == 0 {
        assert(parts.push(part) =~= seq![part]);
    } else if parts.len() == 1 {
        assert(parts.push(part).drop_first() =~= seq![part]);
        assert(spec_join(parts.push(part).drop_first(), sep) == part);
        assert(parts.push(part)[0] == parts[0]);
        assert(spec_join(parts.push(part), sep) == parts[0] + sep + part);
        assert(spec_join(parts, sep) == parts[0]);
    } else {
        lemma_join_push(parts.drop_first(), sep, part);
        assert(parts.push(part).drop_first() =~= parts.drop_first().push(part));
        assert(spec_join(parts.push(part), sep) == parts[0] + sep + spec_join(
            parts.drop_first().push(part),
            sep,
        ));
        assert(spec_join(parts, sep) + sep + part == parts[0] + sep + (spec_join(
            parts.drop_first(),
            sep,
        ) + sep + part));
    }
}

/// The parts, each viewed as a character sequence, joined with the separator.
pub fn join_strings(parts: &Vec<String>, sep: &str) -> (r: String)
    ensures
        r@ == spec_join(parts.deep_view(), sep@),
{
    let mut r = String::new();
    let n = parts.len();
    let mut i: usize = 0;
    while i < n
        invariant
            n == parts.len(),
            i <= n,
            r@ == spec_join(parts.deep_view().take(i as int), sep@),
        decreases n - i,
    {
        if i > 0 {
            r.append(sep);
        }
        r.append(parts[i].as_str());
        proof {
            lemma_join_push(parts.deep_view().take(i as int), sep@, parts.deep_view()[i as int]);
            assert(parts.deep_view().take(i + 1 as int) =~= parts.deep_view().take(i as int).push(
                parts.deep_view()[i as int],
            ));
        }
        i = i + 1;
    }
    proof {
        assert(parts.deep_view().take(n as int) =~= parts.deep_view());
    }
    r
}

/// The string with every non-overlapping occurrence of the pattern,
/// scanning left to right, replaced; the replacement itself is not
/// rescanned. An empty pattern leaves the string unchanged.
pub open spec fn spec_replace(s: Seq<char>, pat: Seq<char>, repl: Seq<char>) -> Seq<char>
    decreases s.len(),
{
    if pat.len() == 0 {
        s
    } else if s.len() < pat.len() {
        s
    } else if s.take(pat.len() as int) == pat {
        repl + spec_replace(s.skip(pat.len() as int), pat, repl)
    } else {
        seq![s[0]] + spec_replace(s.drop_first(), pat, repl)
    }
}

/// Whether the pattern occurs at the given position.
fn match_at(s: &str, i: usize, pat: &str) -> (b: bool)
    requires
        i + pat@.len() <= s@.len(),
    ensures
        b == (s@.subrange(i as int, i + pat@.len()) == pat@),
{
    let n = s.unicode_len();
    let m = pat.unicode_len();
    let mut j: usize = 0;
    while j < m
        invariant
            j <= m,
            m == pat@.len(),
            n == s@.len(),
            i + m <= n,
            forall|k: int| 0 <= k < j ==> s@[i + k] == pat@[k],
        decreases m - j,
    {
        if s.get_char(i + j) != pat.get_char(j) {
            assert(s@.subrange(i as int, i + pat@.len())[j as int] != pat@[j as int]);
            return false;
        }
        j = j + 1;
    }
    proof {
        assert(s@.subrange(i as int, i + pat@.len()) =~= pat@);
    }
    true
}

/// The string with every occurrence of the (non-empty) pattern replaced,
/// scanning left to right without rescanning replacements.
pub fn replace_all(s: &str, pat: &str, repl: &str) -> (r: String)
    requires
        pat@.len() > 0,
    ensures
        r@ == spec_replace(s@, pat@, repl@),
{
    let n = s.unicode_len();
    let m = pat.unicode_len();
    let mut r = String::new();
    let mut i: usize = 0;
    proof {
        assert(s@.skip(0) =~= s@);
    }
    while i < n
        invariant
            i <= n,
            n == s@.len(),
            m == pat@.len(),
            m > 0,
            spec_replace(s@, pat@, repl@) == r@ + spec_replace(s@.skip(i as int), pat@, repl@),
        decreases n - i,
    {
        let ghost suffix = s@.skip(i as int);
        if m <= n - i && match_at(s, i, pat) {
            r.append(repl);
            proof {
                assert(suffix.take(m as int) =~= s@.subrange(i as int, i + m));
                assert(suffix.skip(m as int) =~= s@.skip(i + m));
                assert(spec_replace(suffix, pat@, repl@) == repl@ + spec_replace(
                    s@.skip(i + m),
                    pat@,
                    repl@,
                ));
                assert(spec_replace(s@, pat@, repl@) == r@ + spec_replace(
                    s@.skip(i + m),
                    pat@,
                    repl@,
                ));
            }
            i = i + m;
        } else {
            let c = s.get_char(i);
            push_char(&mut r, c);
            proof {
                if i + m <= n as int {
                    assert(suffix.take(m as int) =~= s@.subrange(i as int, i + m));
                    assert(suffix.take(m as int) != pat@);
                    assert(suffix.drop_first() =~= s@.skip(i + 1));
                    assert(spec_replace(suffix, pat@, repl@) == seq![suffix[0]] + spec_replace(
                        s@.skip(i + 1),
                        pat@,
                        repl@,
                    ));
                    assert(suffix[0] == s@[i as int]);
                } else {
                    assert(suffix.len() < m);
                    assert(spec_replace(suffix, pat@, repl@) == suffix);
                    assert(s@.skip(i + 1).len() < m);
                    assert(spec_replace(s@.skip(i + 1), pat@, repl@) == s@.skip(i + 1));
                    assert(suffix =~= seq![s@[i as int]] + s@.skip(i + 1));
                }
                assert(spec_replace(s@, pat@, repl@) == r@ + spec_replace(
                    s@.skip(i + 1),
                    pat@,
                    repl@,
                ));
            }
            i = i + 1;
        }
    }
    proof {
        assert(s@.skip(n as int) =~= Seq::<char>::empty());
        assert(spec_replace(s@.skip(n as int), pat@, repl@) == Seq::<char>::empty());
        assert(r@ =~= r@ + Seq::<char>::empty());
    }
    r
}

/// The upper-case counterpart of an ASCII lower-case letter; any other
/// character is unchanged.
pub open spec fn spec_upper_char(c: char) -> char {
    if 97 <= (c as u32) < 123 {
        ((c as u32) - 32) as char
    } else {
        c
    }
}

/// The string with every ASCII lower-case letter upper-cased.
pub open spec fn spec_upper(s: Seq<char>) -> Seq<char> {
    s.map_values(|c: char| spec_upper_char(c))
}

/// The string with every ASCII lower-case letter upper-cased.
pub fn to_ascii_upper(s: &str) -> (r: String)
    ensures
        r@ == spec_upper(s@),
{
    let n = s.unicode_len();
    let mut r = String::new();
    let mut i: usize = 0;
    while i < n
        invariant
            i <= n,
            n == s@.len(),
            r@ == spec_upper(s@.take(i as int)),
        decreases n - i,
    {
        let c = s.get_char(i);
        let code: u32 = c as u32;
        if 97 <= code && code < 123 {
            let upper: char = ((code as u8) - 32) as char;
            assert(upper == spec_upper_char(c));
            push_char(&mut r, upper);
        } else {
            push_char(&mut r, c);
        }
        proof {
            assert(r@ =~= spec_upper(s@.take(i + 1)));
        }
        i = i + 1;
    }
    proof {
        assert(s@.take(n as int) =~= s@);
    }
    r
}

/// The non-empty segments of the string between occurrences of the
/// separator, collected left to right onto an open segment.
pub open spec fn spec_split_acc(s: Seq<char>, cur: Seq<char>, sep: char) -> Seq<Seq<char>>
    decreases s.len(),
{
    if s.len() == 0 {
        if cur.len() > 0 {
            seq![cur]
        } else {
            Seq::empty()
        }
    } else if s[0] == sep {
        (if cur.len() > 0 {
            seq![cur]
        } else {
            Seq::empty()
        }) + spec_split_acc(s.drop_first(), Seq::empty(), sep)
    } else {
        spec_split_acc(s.drop_first(), cur.push(s[0]), sep)
    }
}

/// The non-empty segments of the string between occurrences of the
/// separator; empty segments are dropped.
pub open spec fn spec_split_nonempty(s: Seq<char>, sep: char) -> Seq<Seq<char>> {
    spec_split_acc(s, Seq::empty(), sep)
}

/// Splits the string at the separator and keeps the non-empty segments,
/// in order.
pub fn split_nonempty(s: &str, sep: char) -> (r: Vec<String>)
    ensures
        r.deep_view() == spec_split_nonempty(s@, sep),
{
    let n = s.unicode_len();
    let mut parts: Vec<String> = Vec::new();
    let mut cur = String::new();
    let mut i: usize = 0;
    proof {
        assert(s@.skip(0) =~= s@);
        assert(parts.deep_view() =~= Seq::<Seq<char>>::empty());
    }
    while i < n
        invariant
            i <= n,
            n == s@.len(),
            spec_split_nonempty(s@, sep) == parts.deep_view() + spec_split_acc(
                s@.skip(i as int),
                cur@,
                sep,
            ),
        decreases n - i,
    {
        let ghost suffix = s@.skip(i as int);
        let c = s.get_char(i);
        proof {
            assert(suffix[0] == s@[i as int]);
            assert(suffix.drop_first() =~= s@.skip(i + 1));
        }
        if c == sep {
            let finished = cur;
            cur = String::new();
            if !finished.as_str().is_empty() {
                let ghost before = parts.deep_view();
                parts.push(finished);
                proof {
                    assert(parts.deep_view() =~= before + seq![finished@]);
                    assert(before + (seq![finished@] + spec_split_acc(s@.skip(i + 1), cur@, sep))
                        =~= parts.deep_view() + spec_split_acc(s@.skip(i + 1), cur@, sep));
                }
            }
        } else {
            let ghost cur_before = cur@;
            push_char(&mut cur, c);
            proof {
                assert(cur@ =~= cur_before.push(suffix[0]));
                assert(spec_split_acc(suffix, cur_before, sep) == spec_split_acc(
                    s@.skip(i + 1),
                    cur@,
                    sep,
                ));
            }
        }
        i = i + 1;
    }
    proof {
        assert(s@.skip(n as int) =~= Seq::<char>::empty());
    }
    if !cur.as_str().is_empty() {
        let ghost before = parts.deep_view();
        parts.push(cur);
        proof {
            assert(parts.deep_view() =~= before + seq![cur@]);
        }
    } else {
        proof {
            assert(parts.deep_view() =~= parts.deep_view() + Seq::<Seq<char>>::empty());
        }
    }
    parts
}

/// How many times the character occurs in the string.
pub open spec fn spec_count_char(s: Seq<char>, c: char) -> nat
    decreases s.len(),
{
    if s.len() == 0 {
        0
    } else {
        (if s[0] == c {
            1nat
        } else {
            0nat
        }) + spec_count_char(s.drop_first(), c)
    }
}

/// Character counts add up over concatenation.
pub broadcast proof fn lemma_count_char_concat(a: Seq<char>, b: Seq<char>, c: char)
    ensures
        #[trigger] spec_count_char(a + b, c) == spec_count_char(a, c) + spec_count_char(b, c),
    decreases a.len(),
{
    if a.len() == 0 {
        assert(a + b =~= b);
    } else {
        lemma_count_char_concat(a.drop_first(), b, c);
        assert((a + b).drop_first() =~= a.drop_first() + b);
        assert((a + b)[0] == a[0]);
    }
}

/// A character absent from the string is counted zero times.
pub proof fn lemma_count_char_absent(s: Seq<char>, c: char)
    requires
        !s.contains(c),
    ensures
        spec_count_char(s, c) == 0,
    decreases s.len(),
{
    if s.len() > 0 {
        assert(s[0] != c);
        assert(forall|i: int| 0 <= i < s.drop_first().len() ==> s.drop_first()[i] == s[i + 1]);
        lemma_count_char_absent(s.drop_first(), c);
    }
}

/// A join counts a character exactly as often as its parts do together,
/// when the separator does not hold it.
pub proof fn lemma_count_char_join_each(
    parts: Seq<Seq<char>>,
    sep: Seq<char>,
    c: char,
    each: nat,
)
    requires
        spec_count_char(sep, c) == 0,
        forall|i: int| 0 <= i < parts.len() ==> spec_count_char(#[trigger] parts[i], c) == each,
    ensures
        spec_count_char(spec_join(parts, sep), c) == parts.len() * each,
    decreases parts.len(),
{
    if parts.len() == 0 {
    } else if parts.len() == 1 {
        assert(spec_count_char(parts[0], c) == each);
        assert(parts.len() * each == each) by (nonlinear_arith)
            requires
                parts.len() == 1,
        ;
    } else {
        assert(forall|i: int|
            0 <= i < parts.drop_first().len() ==> spec_count_char(
                #[trigger] parts.drop_first()[i],
                c,
            ) == each);
        lemma_count_char_join_each(parts.drop_first(), sep, c, each);
        lemma_count_char_concat(parts[0], sep, c);
        lemma_count_char_concat(parts[0] + sep, spec_join(parts.drop_first(), sep), c);
        assert(spec_join(parts, sep) == parts[0] + sep + spec_join(parts.drop_first(), sep));
        assert(parts.len() * each == each + (parts.len() - 1) * each) by (nonlinear_arith)
            requires
                parts.len() >= 2,
        ;
    }
}

/// A string without an occurrence of the single-character pattern is
/// unchanged by replacement.
pub proof fn lemma_replace_char_absent(s: Seq<char>, pat: Seq<char>, repl: Seq<char>)
    requires
        pat.len() == 1,
        !s.contains(pat[0]),
    ensures
        spec_replace(s, pat, repl) == s,
    decreases s.len(),
{
    if s.len() == 0 {
    } else {
        assert(s[0] != pat[0]);
        assert(s.take(1) =~= seq![s[0]]);
        assert(s.take(1) != pat);
        assert(forall|i: int| 0 <= i < s.drop_first().len() ==> s.drop_first()[i] == s[i + 1]);
        lemma_replace_char_absent(s.drop_first(), pat, repl);
        assert(spec_replace(s, pat, repl) =~= seq![s[0]] + s.drop_first());
        assert(seq![s[0]] + s.drop_first() =~= s);
    }
}

/// Replacing a single-character pattern that occurs exactly once — here:
/// between a prefix and a suffix free of it — substitutes the replacement
/// at that one place and leaves everything else unchanged.
pub proof fn lemma_replace_single_occurrence(
    a: Seq<char>,
    b: Seq<char>,
    pat: Seq<char>,
    repl: Seq<char>,
)
    requires
        pat.len() == 1,
        !a.contains(pat[0]),
        !b.contains(pat[0]),
    ensures
        spec_replace(a + pat + b, pat, repl) == a + repl + b,
    decreases a.len(),
{
    let s = a + pat + b;
    if a.len() == 0 {
        assert(s =~= pat + b);
        assert(s.take(1) =~= pat);
        assert(s.skip(1) =~= b);
        lemma_replace_char_absent(b, pat, repl);
        assert(spec_replace(s, pat, repl) == repl + b);
        assert(a + repl + b =~= repl + b);
    } else {
        assert(s.len() >= 1);
        assert(s[0] == a[0]);
        assert(a[0] != pat[0]);
        assert(s.take(1) =~= seq![s[0]]);
        assert(s.take(1) != pat);
        assert(forall|i: int| 0 <= i < a.drop_first().len() ==> a.drop_first()[i] == a[i + 1]);
        lemma_replace_single_occurrence(a.drop_first(), b, pat, repl);
        assert(s.drop_first() =~= a.drop_first() + pat + b);
        assert(spec_replace(s, pat, repl) == seq![s[0]] + (a.drop_first() + repl + b));
        assert(seq![s[0]] + (a.drop_first() + repl + b) =~= a + repl + b);
    }
}

} // verus!
