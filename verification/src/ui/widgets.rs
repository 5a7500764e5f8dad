//! Input rules of the custom widgets.

use vstd::prelude::*;
use vstd::string::StrSliceExecFns;

use crate::text::{decimal_value, digit_value, is_digit, push_char};

verus! {

/// The ASCII digits of `s` in order, at most `limit` of them.
pub open spec fn first_digits(s: Seq<char>, limit: nat) -> Seq<char>
    decreases s.len(),
{
    if s.len() == 0 || limit == 0 {
        Seq::empty()
    } else if is_digit(s[0]) {
        seq![s[0]] + first_digits(s.drop_first(), (limit - 1) as nat)
    } else {
        first_digits(s.drop_first(), limit)
    }
}

/// The level a percentage field holds: its first three digits, limited to
/// 100; none while no digit is typed.
pub open spec fn typed_percent_spec(text: Seq<char>) -> Option<u8> {
    let digits = first_digits(text, 3);
    if digits.len() == 0 {
        None
    } else if decimal_value(digits) > 100 {
        Some(100)
    } else {
        Some(decimal_value(digits) as u8)
    }
}

proof fn lemma_first_digits(s: Seq<char>, limit: nat)
    ensures
        first_digits(s, limit).len() <= limit,
        forall|i: int| 0 <= i < first_digits(s, limit).len() ==> is_digit(
            #[trigger] first_digits(s, limit)[i],
        ),
    decreases s.len(),
{
    if s.len() > 0 && limit > 0 {
        if is_digit(s[0]) {
            lemma_first_digits(s.drop_first(), (limit - 1) as nat);
            let t = first_digits(s.drop_first(), (limit - 1) as nat);
            assert forall|i: int| 0 <= i < first_digits(s, limit).len() implies is_digit(
                #[trigger] first_digits(s, limit)[i],
            ) by {
                if i > 0 {
                    assert(first_digits(s, limit)[i] == t[i - 1]);
                }
            }
        } else {
            lemma_first_digits(s.drop_first(), limit);
        }
    }
}

proof fn lemma_decimal_value_bound(s: Seq<char>)
    requires
        s.len() <= 3,
        forall|i: int| 0 <= i < s.len() ==> is_digit(#[trigger] s[i]),
    ensures
        0 <= decimal_value(s) < 1000,
        s.len() <= 2 ==> decimal_value(s) < 100,
        s.len() <= 1 ==> decimal_value(s) < 10,
    decreases s.len(),
{
    if s.len() > 0 {
        assert forall|i: int| 0 <= i < s.drop_last().len() implies is_digit(
            #[trigger] s.drop_last()[i],
        ) by {
            assert(s.drop_last()[i] == s[i]);
        }
        lemma_decimal_value_bound(s.drop_last());
        assert(is_digit(s[s.len() - 1]));
    }
}

/// What a percentage field holds after typing: the digits kept in the
/// field — non-digits are dropped rather than blanking the field, which
/// would fight the user mid-edit, and at most three are kept — and the
/// level they stand for, limited to 100. An empty field is a valid
/// intermediate state that applies nothing.
pub fn typed_percent(text: &str) -> (r: (String, Option<u8>))
    ensures
        r.0@ == first_digits(text@, 3),
        r.1 == typed_percent_spec(text@),
{
    let n = text.unicode_len();
    let mut digits = String::new();
    let mut count: usize = 0;
    let mut value: u32 = 0;
    let mut i: usize = 0;
    proof {
        assert(text@.skip(0) =~= text@);
    }
    while i < n && count < 3
        invariant
            i <= n,
            n == text@.len(),
            count <= 3,
            digits@.len() == count,
            digits@ + first_digits(text@.skip(i as int), (3 - count) as nat) == first_digits(
                text@,
                3,
            ),
            forall|k: int| 0 <= k < digits@.len() ==> is_digit(#[trigger] digits@[k]),
            value as int == decimal_value(digits@),
        decreases n - i,
    {
        let c = text.get_char(i);
        let ghost rest = text@.skip(i as int);
        let ghost before = digits@;
        proof {
            assert(rest[0] == c);
            assert(rest.drop_first() =~= text@.skip(i + 1));
        }
        if '0' <= c && c <= '9' {
            proof {
                lemma_decimal_value_bound(before);
            }
            push_char(&mut digits, c);
            value = value * 10 + ((c as u32) - 48);
            count = count + 1;
            proof {
                assert(digits@.drop_last() =~= before);
                assert(digits@ + first_digits(text@.skip(i + 1), (3 - count) as nat) =~= before
                    + (seq![c] + first_digits(rest.drop_first(), (3 - count) as nat)));
            }
        }
        i = i + 1;
    }
    proof {
        if count < 3 {
            assert(text@.skip(i as int).len() == 0);
        }
        assert(first_digits(text@.skip(i as int), (3 - count) as nat) =~= Seq::<char>::empty());
        assert(digits@ =~= first_digits(text@, 3));
        lemma_decimal_value_bound(digits@);
    }
    if count == 0 {
        (digits, None)
    } else if value > 100 {
        (digits, Some(100))
    } else {
        (digits, Some(value as u8))
    }
}

/// What typing into a percentage field showing `current` changes: the
/// digits kept in the field, and the level to apply, which is none when
/// the typed level equals the one already shown.
pub fn typed_change(text: &str, current: u8) -> (r: (String, Option<u8>))
    ensures
        r.0@ == first_digits(text@, 3),
        r.1 == match typed_percent_spec(text@) {
            Some(v) => if v != current {
                Some(v)
            } else {
                None
            },
            None => None,
        },
{
    let (digits, typed) = typed_percent(text);
    match typed {
        Some(v) => {
            if v != current {
                (digits, Some(v))
            } else {
                (digits, None)
            }
        },
        None => (digits, None),
    }
}

/// Whether `s` holds an ASCII decimal digit.
pub open spec fn has_digit(s: Seq<char>) -> bool {
    exists|k: int| 0 <= k < s.len() && '0' <= #[trigger] s[k] <= '9'
}

proof fn lemma_first_digits_nonempty(s: Seq<char>, limit: nat)
    requires
        limit > 0,
        has_digit(s),
    ensures
        first_digits(s, limit).len() > 0,
    decreases s.len(),
{
    let k = choose|k: int| 0 <= k < s.len() && '0' <= #[trigger] s[k] <= '9';
    if !is_digit(s[0]) {
        assert(k > 0);
        assert(s.drop_first()[k - 1] == s[k]);
        lemma_first_digits_nonempty(s.drop_first(), limit);
    }
}

proof fn lemma_first_digits_none(s: Seq<char>, limit: nat)
    requires
        !has_digit(s),
    ensures
        first_digits(s, limit).len() == 0,
    decreases s.len(),
{
    if s.len() > 0 && limit > 0 {
        assert(!('0' <= s[0] <= '9'));
        assert(!has_digit(s.drop_first())) by {
            if has_digit(s.drop_first()) {
                let k = choose|k: int|
                    0 <= k < s.drop_first().len() && '0' <= #[trigger] s.drop_first()[k] <= '9';
                assert(s[k + 1] == s.drop_first()[k]);
            }
        }
        lemma_first_digits_none(s.drop_first(), limit);
    }
}

proof fn lemma_first_digits_all(s: Seq<char>, limit: nat)
    requires
        s.len() <= limit,
        forall|k: int| 0 <= k < s.len() ==> '0' <= #[trigger] s[k] <= '9',
    ensures
        first_digits(s, limit) == s,
    decreases s.len(),
{
    if s.len() > 0 {
        assert forall|k: int| 0 <= k < s.drop_first().len() implies '0' <= #[trigger] s.drop_first()[k]
            <= '9' by {
            assert(s.drop_first()[k] == s[k + 1]);
        }
        lemma_first_digits_all(s.drop_first(), (limit - 1) as nat);
        assert(seq![s[0]] + s.drop_first() =~= s);
    }
}

/// A typed percentage is a level exactly when a digit was typed, never
/// above 100; text of at most three digits is read as the number it spells,
/// capped at 100, so a single digit `d` is the level `d`.
pub proof fn lemma_typed_percent_reads_digits(text: Seq<char>)
    ensures
        typed_percent_spec(text) is Some <==> has_digit(text),
        typed_percent_spec(text) matches Some(v) ==> v <= 100,
        text.len() <= 3 && text.len() > 0 && (forall|k: int|
            0 <= k < text.len() ==> '0' <= #[trigger] text[k] <= '9') ==> typed_percent_spec(text)
            == Some(
            (if decimal_value(text) > 100 {
                100
            } else {
                decimal_value(text)
            }) as u8,
        ),
        text.len() == 1 && '0' <= text[0] <= '9' ==> typed_percent_spec(text) == Some(
            (text[0] as int - '0' as int) as u8,
        ),
{
    lemma_first_digits(text, 3);
    lemma_decimal_value_bound(first_digits(text, 3));
    if has_digit(text) {
        lemma_first_digits_nonempty(text, 3);
    } else {
        lemma_first_digits_none(text, 3);
    }
    if text.len() <= 3 && text.len() > 0 && (forall|k: int|
        0 <= k < text.len() ==> '0' <= #[trigger] text[k] <= '9') {
        lemma_first_digits_all(text, 3);
        assert forall|i: int| 0 <= i < text.len() implies is_digit(#[trigger] text[i]) by {
            assert('0' <= text[i] <= '9');
        }
        lemma_decimal_value_bound(text);
    }
    if text.len() == 1 && '0' <= text[0] <= '9' {
        lemma_first_digits_all(text, 3);
        assert(text.drop_last().len() == 0);
        assert(decimal_value(text.drop_last()) == 0);
        assert(text.last() == text[0]);
        assert(decimal_value(text) == text[0] as int - '0' as int);
    }
}

proof fn lemma_first_digits_skip(a: Seq<char>, c: char, b: Seq<char>, limit: nat)
    requires
        !('0' <= c <= '9'),
    ensures
        first_digits(a + seq![c] + b, limit) == first_digits(a + b, limit),
    decreases a.len(),
{
    if a.len() == 0 {
        assert(a + seq![c] + b =~= seq![c] + b);
        assert((seq![c] + b).drop_first() =~= b);
        assert(a + b =~= b);
    } else if limit > 0 {
        assert((a + seq![c] + b).drop_first() =~= a.drop_first() + seq![c] + b);
        assert((a + b).drop_first() =~= a.drop_first() + b);
        assert((a + seq![c] + b)[0] == a[0]);
        assert((a + b)[0] == a[0]);
        if is_digit(a[0]) {
            lemma_first_digits_skip(a.drop_first(), c, b, (limit - 1) as nat);
        } else {
            lemma_first_digits_skip(a.drop_first(), c, b, limit);
        }
    }
}

/// Anything typed that is not a digit is ignored: taking a non-digit out
/// of the text, wherever it stands, changes neither the level nor the
/// digits the field keeps.
pub proof fn lemma_typed_percent_ignores_non_digits(a: Seq<char>, c: char, b: Seq<char>)
    requires
        !('0' <= c <= '9'),
    ensures
        typed_percent_spec(a + seq![c] + b) == typed_percent_spec(a + b),
        first_digits(a + seq![c] + b, 3) == first_digits(a + b, 3),
{
    lemma_first_digits_skip(a, c, b, 3);
}

} // verus!
