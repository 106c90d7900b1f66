use vstd::prelude::*;

verus! {

/// `c` is one of the decimal digits `0` to `9`.
pub open spec fn is_digit(c: char) -> bool {
    48 <= c as u32 <= 57
}

/// The value of a string of decimal digits, most significant first.
pub open spec fn decimal_value(s: Seq<char>) -> nat
    decreases s.len(),
{
    if s.len() == 0 {
        0
    } else {
        decimal_value(s.drop_last()) * 10 + (s.last() as u32 - 48) as nat
    }
}

/// `s` without a leading `+` sign, if it has one.
pub open spec fn unsigned_part(s: Seq<char>) -> Seq<char> {
    if s.len() > 0 && s[0] == '+' {
        s.drop_first()
    } else {
        s
    }
}

/// Every character of `s` is a decimal digit.
pub open spec fn all_digits(s: Seq<char>) -> bool {
    forall|i: int| 0 <= i < s.len() ==> is_digit(#[trigger] s[i])
}

/// What `str::parse::<usize>` gives: an optional `+` sign followed by at least
/// one decimal digit and nothing else, whose value fits in a `usize`.
pub open spec fn parse_usize(s: Seq<char>) -> Option<usize> {
    let digits = unsigned_part(s);
    if digits.len() > 0 && all_digits(digits) && decimal_value(digits) <= usize::MAX {
        Some(decimal_value(digits) as usize)
    } else {
        None
    }
}

/// A slot name split into its first character (the kind) and the index that
/// the rest of the name parses to.
pub open spec fn spec_parse_slot(name: Seq<char>) -> Option<(char, usize)> {
    if name.len() == 0 {
        None
    } else {
        match parse_usize(name.drop_first()) {
            Some(i) => Some((name[0], i)),
            None => None,
        }
    }
}

/// A longer digit string never has a smaller value than its prefixes.
pub proof fn lemma_decimal_value_prefix(s: Seq<char>, k: int)
    requires
        0 <= k <= s.len(),
        all_digits(s),
    ensures
        decimal_value(s.subrange(0, k)) <= decimal_value(s),
    decreases s.len(),
{
    if k < s.len() {
        assert(s.drop_last().subrange(0, k) =~= s.subrange(0, k));
        lemma_decimal_value_prefix(s.drop_last(), k);
    } else {
        assert(s.subrange(0, k) =~= s);
    }
}

/// Split a slot name like "s2" or "v0" into its kind and index.
pub fn parse_slot(name: &str) -> (r: Option<(char, usize)>)
    ensures
        r == spec_parse_slot(name@),
{
    let n = name.unicode_len();
    if n == 0 {
        return None;
    }
    let kind = name.get_char(0);
    let ghost rest = name@.drop_first();
    let ghost digits = unsigned_part(rest);
    let mut start: usize = 1;
    if n > 1 && name.get_char(1) == '+' {
        start = 2;
    }
    assert(digits =~= name@.subrange(start as int, n as int));
    if start >= n {
        return None;
    }
    let mut value: usize = 0;
    let mut i: usize = start;
    while i < n
        invariant
            n == name@.len(),
            rest == name@.drop_first(),
            digits == unsigned_part(rest),
            1 <= start <= i <= n,
            digits =~= name@.subrange(start as int, n as int),
            forall|j: int| start <= j < i ==> is_digit(#[trigger] name@[j]),
            value == decimal_value(name@.subrange(start as int, i as int)),
        decreases n - i,
    {
        let c = name.get_char(i);
        let code = c as u32;
        if code < 48 || code > 57 {
            assert(!is_digit(digits[i - start]));
            return None;
        }
        let d = (code - 48) as usize;
        let ghost prefix = name@.subrange(start as int, i + 1);
        assert(prefix.drop_last() =~= name@.subrange(start as int, i as int));
        if value > (usize::MAX - d) / 10 {
            proof {
                assert(decimal_value(prefix) > usize::MAX) by (nonlinear_arith)
                    requires
                        decimal_value(prefix) == value * 10 + d,
                        value > (usize::MAX - d) / 10,
                        d <= 9,
                ;
                if all_digits(digits) {
                    assert(digits.subrange(0, i + 1 - start) =~= prefix);
                    lemma_decimal_value_prefix(digits, i + 1 - start);
                }
            }
            return None;
        }
        proof {
            assert(value * 10 + d <= usize::MAX) by (nonlinear_arith)
                requires
                    value <= (usize::MAX - d) / 10,
                    d <= 9,
            ;
        }
        value = value * 10 + d;
        i = i + 1;
    }
    assert(name@.subrange(start as int, n as int) =~= digits);
    Some((kind, value))
}

/// The documented user slots: "s0".."s3" (scalars) and "v0".."v3" (vec4s),
/// exactly, split into kind and index; every other name is none of them.
pub open spec fn spec_user_slot(name: Seq<char>) -> Option<(char, usize)> {
    if name.len() == 2 && (name[0] == 's' || name[0] == 'v') && 48 <= name[1] as u32 <= 51 {
        Some((name[0], (name[1] as u32 - 48) as usize))
    } else {
        None
    }
}

/// Which of the eight user slots `name` names, as kind and index.
pub fn user_slot(name: &str) -> (r: Option<(char, usize)>)
    ensures
        r == spec_user_slot(name@),
{
    if name.unicode_len() != 2 {
        return None;
    }
    let kind = name.get_char(0);
    if kind != 's' && kind != 'v' {
        return None;
    }
    let code = name.get_char(1) as u32;
    if code < 48 || code > 51 {
        return None;
    }
    Some((kind, (code - 48) as usize))
}

} // verus!
