//! What trimming, splitting, searching and reading numerals give.

use vstd::prelude::*;

use crate::chars::{
    digit_value, is_space, last_index_of, lower, lower_case, numeral, split_on, strip_end,
    strip_start, trimmed, without_leading, without_trailing,
};

verus! {

/// Stripping the start drops just the longest run of leading characters that
/// satisfy `p`.
pub proof fn law_strip_start(s: Seq<char>, p: spec_fn(char) -> bool) -> (n: int)
    ensures
        0 <= n <= s.len(),
        strip_start(s, p) == s.skip(n),
        forall|i: int| 0 <= i < n ==> p(#[trigger] s[i]),
        n < s.len() ==> !p(s[n]),
    decreases s.len(),
{
    if s.len() > 0 && p(s[0]) {
        let rest = s.drop_first();
        let n = law_strip_start(rest, p) + 1;
        assert(strip_start(s, p) =~= s.skip(n));
        assert forall|i: int| 0 <= i < n implies p(#[trigger] s[i]) by {
            if i > 0 {
                assert(rest[i - 1] == s[i]);
            }
        }
        n
    } else {
        assert(s.skip(0) =~= s);
        0
    }
}

/// Stripping the end drops just the longest run of trailing characters that
/// satisfy `p`.
pub proof fn law_strip_end(s: Seq<char>, p: spec_fn(char) -> bool) -> (n: int)
    ensures
        0 <= n <= s.len(),
        strip_end(s, p) == s.take(n),
        forall|i: int| n <= i < s.len() ==> p(#[trigger] s[i]),
        n > 0 ==> !p(s[n - 1]),
    decreases s.len(),
{
    if s.len() > 0 && p(s.last()) {
        let rest = s.drop_last();
        let n = law_strip_end(rest, p);
        assert(strip_end(s, p) =~= s.take(n));
        assert forall|i: int| n <= i < s.len() implies p(#[trigger] s[i]) by {
            if i < s.len() - 1 {
                assert(rest[i] == s[i]);
            }
        }
        n
    } else {
        assert(s.take(s.len() as int) =~= s);
        s.len() as int
    }
}

/// Trimming drops the white space at both ends and nothing else: what is left
/// neither begins nor ends with white space, and all that is dropped is white
/// space.
pub proof fn law_trimmed(s: Seq<char>) -> (ends: (int, int))
    ensures
        0 <= ends.0 <= ends.1 <= s.len(),
        trimmed(s) == s.subrange(ends.0, ends.1),
        forall|i: int| 0 <= i < ends.0 || ends.1 <= i < s.len() ==> is_space(#[trigger] s[i]),
        trimmed(s).len() > 0 ==> !is_space(trimmed(s)[0]) && !is_space(trimmed(s).last()),
        trimmed(trimmed(s)) == trimmed(s),
{
    let p = |c: char| is_space(c);
    let a = law_strip_start(s, p);
    let rest = s.skip(a);
    let n = law_strip_end(rest, p);
    let b = a + n;
    assert(trimmed(s) =~= s.subrange(a, b));
    assert forall|i: int| 0 <= i < a || b <= i < s.len() implies is_space(#[trigger] s[i]) by {
        if i >= b {
            assert(rest[i - a] == s[i]);
            assert(p(rest[i - a]));
        } else {
            assert(p(s[i]));
        }
    }
    let t = trimmed(s);
    if t.len() > 0 {
        assert(a < s.len() && !p(s[a]));
        assert(t[0] == s[a]);
        assert(!p(rest[n - 1]));
        assert(t.last() == rest[n - 1]);
        assert(strip_start(t, p) == t);
        assert(strip_end(t, p) == t);
    }
    (a, b)
}

/// A text without white space at its ends is left alone by trimming; one
/// without the character at that end by taking the character off there.
pub proof fn law_nothing_to_strip(s: Seq<char>, x: char)
    requires
        s.len() > 0,
    ensures
        !is_space(s[0]) && !is_space(s.last()) ==> trimmed(s) == s,
        s[0] != x ==> without_leading(s, x) == s,
        s.last() != x ==> without_trailing(s, x) == s,
{
}

/// The last occurrence of a character is where it stands and does not occur
/// behind; there is one if and only if the text holds the character.
pub proof fn law_last_index_of(s: Seq<char>, x: char)
    ensures
        last_index_of(s, x) matches Some(i) ==> {
            &&& 0 <= i < s.len()
            &&& s[i] == x
            &&& forall|j: int| i < j < s.len() ==> #[trigger] s[j] != x
        },
        last_index_of(s, x) is None ==> forall|j: int| 0 <= j < s.len() ==> #[trigger] s[j] != x,
    decreases s.len(),
{
    if s.len() > 0 && s.last() != x {
        let rest = s.drop_last();
        law_last_index_of(rest, x);
        match last_index_of(rest, x) {
            Some(i) => {
                assert forall|j: int| i < j < s.len() implies #[trigger] s[j] != x by {
                    if j < s.len() - 1 {
                        assert(rest[j] == s[j]);
                    }
                }
            },
            None => {
                assert forall|j: int| 0 <= j < s.len() implies #[trigger] s[j] != x by {
                    if j < s.len() - 1 {
                        assert(rest[j] == s[j]);
                    }
                }
            },
        }
    }
}

/// A text without the separator is a single part; and behind a separator that
/// is the last one stands the last part.
pub proof fn law_split_on(head: Seq<char>, x: char, last: Seq<char>)
    requires
        forall|i: int| 0 <= i < last.len() ==> #[trigger] last[i] != x,
    ensures
        split_on(last, x) == seq![last],
        split_on(head.push(x) + last, x) == split_on(head, x).push(last),
    decreases last.len(),
{
    let s = head.push(x) + last;
    if last.len() == 0 {
        assert(s =~= head.push(x));
        assert(s.drop_last() =~= head);
        assert(last =~= Seq::empty());
    } else {
        let l0 = last.drop_last();
        assert forall|i: int| 0 <= i < l0.len() implies #[trigger] l0[i] != x by {
            assert(l0[i] == last[i]);
        }
        law_split_on(head, x, l0);
        assert(s.drop_last() =~= head.push(x) + l0);
        assert(s.last() == last[last.len() - 1]);
        assert(l0.push(last.last()) =~= last);
        assert(split_on(last, x) =~= seq![last]);
        assert(split_on(s, x) =~= split_on(head, x).push(last));
    }
}

/// The parts of a text do not hold the separator, and there is one more of them
/// than there are separators.
pub proof fn law_split_parts(s: Seq<char>, x: char)
    ensures
        split_on(s, x).len() == s.filter(|c: char| c == x).len() + 1,
        forall|k: int|
            0 <= k < split_on(s, x).len() ==> !(#[trigger] split_on(s, x)[k]).contains(x),
    decreases s.len(),
{
    let is_x = |c: char| c == x;
    reveal(Seq::filter);
    if s.len() > 0 {
        let rest = s.drop_last();
        law_split_parts(rest, x);
        let parts = split_on(rest, x);
        assert forall|k: int| 0 <= k < split_on(s, x).len() implies !(
        #[trigger] split_on(s, x)[k]).contains(x) by {
            let part = split_on(s, x)[k];
            if k == split_on(s, x).len() - 1 {
                if s.last() != x {
                    assert(part == parts.last().push(s.last()));
                    assert(!parts[parts.len() - 1].contains(x));
                    if part.contains(x) {
                        let i = choose|i: int| 0 <= i < part.len() && part[i] == x;
                        assert(parts.last()[i] == x);
                    }
                }
            } else {
                assert(part == parts[k]);
            }
        }
    }
}

/// A numeral is read if and only if all its characters are digits of the base.
/// The digit at the end counts once, and all before it `base` times.
pub proof fn law_numeral(s: Seq<char>, base: nat, c: char)
    requires
        2 <= base <= 16,
    ensures
        numeral(s, base) is Some <==> forall|i: int|
            0 <= i < s.len() ==> (digit_value(#[trigger] s[i]) matches Some(d) && d < base),
        numeral(s, base) is Some && digit_value(c) is Some && digit_value(c)->0 < base ==> numeral(
            s.push(c),
            base,
        ) == Some(numeral(s, base)->0 * base + digit_value(c)->0),
    decreases s.len(),
{
    assert(s.push(c).drop_last() =~= s);
    if s.len() > 0 {
        law_numeral(s.drop_last(), base, c);
        let rest = s.drop_last();
        if numeral(s, base) is Some {
            assert forall|i: int| 0 <= i < s.len() implies (digit_value(#[trigger] s[i]) matches Some(
                d,
            ) && d < base) by {
                if i < s.len() - 1 {
                    assert(rest[i] == s[i]);
                }
            }
        } else if forall|i: int|
            0 <= i < s.len() ==> (digit_value(#[trigger] s[i]) matches Some(d) && d < base) {
            assert forall|i: int| 0 <= i < rest.len() implies (digit_value(
                #[trigger] rest[i],
            ) matches Some(d) && d < base) by {
                assert(rest[i] == s[i]);
            }
            assert(s[s.len() - 1] == s.last());
        }
    }
}

/// Digits have the values that they show, letters from ten on in either case,
/// and no other character is a digit.
pub proof fn law_digit_values(c: char)
    ensures
        '0' as u32 <= c as u32 <= '9' as u32 ==> digit_value(c) == Some((c as u32 - '0' as u32) as nat),
        'a' as u32 <= c as u32 <= 'f' as u32 ==> digit_value(c) == Some((c as u32 - 'a' as u32 + 10) as nat),
        'A' as u32 <= c as u32 <= 'F' as u32 ==> digit_value(c) == Some((c as u32 - 'A' as u32 + 10) as nat),
        !('0' as u32 <= c as u32 <= '9' as u32) && !('a' as u32 <= c as u32 <= 'f' as u32) && !('A' as u32 <= c as u32 <= 'F' as u32) ==> digit_value(c) is None,
{
}

/// Lower case keeps the length and every character but the capital letters `A`
/// to `Z`, each of which becomes the small letter; done twice it is done once.
pub proof fn law_lower_case(s: Seq<char>, i: int)
    requires
        0 <= i < s.len(),
    ensures
        lower_case(s).len() == s.len(),
        'A' as u32 <= s[i] as u32 <= 'Z' as u32 ==> lower_case(s)[i] as u32 == s[i] as u32 + ('a' as u32 - 'A' as u32),
        !('A' as u32 <= s[i] as u32 <= 'Z' as u32) ==> lower_case(s)[i] == s[i],
        lower_case(lower_case(s)) == lower_case(s),
{
    assert forall|c: char| #[trigger] lower(lower(c)) == lower(c) by {}
    assert(lower_case(lower_case(s)) =~= lower_case(s));
}

/// White space is just the twenty-five characters with the Unicode property of
/// that name.
pub proof fn law_spaces(c: char)
    ensures
        is_space(c) <==> seq![
            0x09u32, 0x0A, 0x0B, 0x0C, 0x0D, 0x20, 0x85, 0xA0, 0x1680, 0x2000, 0x2001, 0x2002,
            0x2003, 0x2004, 0x2005, 0x2006, 0x2007, 0x2008, 0x2009, 0x200A, 0x2028, 0x2029, 0x202F,
            0x205F, 0x3000,
        ].contains(c as u32),
{
    let all = seq![
        0x09u32, 0x0A, 0x0B, 0x0C, 0x0D, 0x20, 0x85, 0xA0, 0x1680, 0x2000, 0x2001, 0x2002,
        0x2003, 0x2004, 0x2005, 0x2006, 0x2007, 0x2008, 0x2009, 0x200A, 0x2028, 0x2029, 0x202F,
        0x205F, 0x3000,
    ];
    let u = c as u32;
    if is_space(c) {
        let k: int = if u <= 0x0D {
            u - 0x09
        } else if u == 0x20 {
            5
        } else if u == 0x85 {
            6
        } else if u == 0xA0 {
            7
        } else if u == 0x1680 {
            8
        } else if u <= 0x200A {
            u - 0x2000 + 9
        } else if u == 0x2028 {
            20
        } else if u == 0x2029 {
            21
        } else if u == 0x202F {
            22
        } else if u == 0x205F {
            23
        } else {
            24
        };
        assert(all[k] == u);
    }
}

} // verus!
